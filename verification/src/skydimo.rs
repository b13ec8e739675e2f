//! Skydimo serial devices: the built-in model table and default LED layouts.
use vstd::prelude::*;
use crate::text::{chars_of, chars_equal, find_chars, is_first_occurrence, occurs_at, trim_str, trimmed};
use vstd::string::*;
use crate::layout::{SegmentType, MatrixMap, Color, rgb_bytes, append_rgb};
use crate::hex_text::{hex_encode, hex_upper, lemma_hex_lower_upper, upper_hex};
use crate::led_matrix::{utf8_lossy, utf8_lossy_string};
use vstd::utf8::encode_utf8;

verus! {

/// How the zones of a Skydimo model are arranged around a screen.
#[derive(Clone, Copy, Debug, PartialEq, Eq, Structural)]
pub enum SkydimoLayoutType {
    Strip1,
    Sides2,
    Perimeter3,
    Perimeter4,
}

/// One zone of a Skydimo model.
#[derive(Clone, Copy, Debug)]
pub struct SkydimoZoneConfig {
    pub name: &'static str,
    pub led_count: usize,
}

/// Zone layout of a Skydimo model.
#[derive(Clone, Debug)]
pub struct SkydimoModelConfig {
    pub layout: SkydimoLayoutType,
    pub zones: Vec<SkydimoZoneConfig>,
    pub total_leds: usize,
}

/// The default output layout derived from a model.
pub struct SkydimoDefaultLayout {
    pub total_leds: usize,
    pub segment_type: SegmentType,
    pub matrix: Option<MatrixMap>,
}

/// Part of the model table.
pub open spec fn model_table_a(id: Seq<char>) -> Option<(SkydimoLayoutType, Seq<usize>)> {
    if id == "SK0201"@ {
        Some((SkydimoLayoutType::Sides2, seq![20usize, 20]))
    } else if id == "SK0202"@ {
        Some((SkydimoLayoutType::Sides2, seq![30usize, 30]))
    } else if id == "SK0204"@ {
        Some((SkydimoLayoutType::Sides2, seq![25usize, 25]))
    } else if id == "SK0F01"@ {
        Some((SkydimoLayoutType::Sides2, seq![29usize, 29]))
    } else if id == "SK0F02"@ {
        Some((SkydimoLayoutType::Sides2, seq![25usize, 25]))
    } else if id == "SK0121"@ {
        Some((SkydimoLayoutType::Perimeter3, seq![13usize, 25, 13]))
    } else if id == "SK0124"@ {
        Some((SkydimoLayoutType::Perimeter3, seq![14usize, 26, 14]))
    } else if id == "SK0127"@ {
        Some((SkydimoLayoutType::Perimeter3, seq![17usize, 31, 17]))
    } else if id == "SK0132"@ {
        Some((SkydimoLayoutType::Perimeter3, seq![20usize, 37, 20]))
    } else {
        None
    }
}

/// Part of the model table.
pub open spec fn model_table_b(id: Seq<char>) -> Option<(SkydimoLayoutType, Seq<usize>)> {
    if id == "SK0134"@ {
        Some((SkydimoLayoutType::Perimeter3, seq![15usize, 41, 15]))
    } else if id == "SK0149"@ {
        Some((SkydimoLayoutType::Perimeter3, seq![19usize, 69, 19]))
    } else if id == "SK0L21"@ {
        Some((SkydimoLayoutType::Perimeter4, seq![13usize, 25, 13, 25]))
    } else if id == "SK0L24"@ {
        Some((SkydimoLayoutType::Perimeter4, seq![14usize, 26, 14, 26]))
    } else if id == "SK0L27"@ {
        Some((SkydimoLayoutType::Perimeter4, seq![17usize, 31, 17, 31]))
    } else if id == "SK0L32"@ {
        Some((SkydimoLayoutType::Perimeter4, seq![20usize, 37, 20, 37]))
    } else if id == "SK0L34"@ {
        Some((SkydimoLayoutType::Perimeter4, seq![15usize, 41, 15, 41]))
    } else if id == "SKA124"@ {
        Some((SkydimoLayoutType::Perimeter3, seq![18usize, 34, 18]))
    } else if id == "SKA127"@ {
        Some((SkydimoLayoutType::Perimeter3, seq![20usize, 41, 20]))
    } else {
        None
    }
}

/// Part of the model table.
pub open spec fn model_table_c(id: Seq<char>) -> Option<(SkydimoLayoutType, Seq<usize>)> {
    if id == "SKA132"@ {
        Some((SkydimoLayoutType::Perimeter3, seq![25usize, 45, 25]))
    } else if id == "SKA134"@ {
        Some((SkydimoLayoutType::Perimeter3, seq![21usize, 51, 21]))
    } else if id == "SK0402"@ {
        Some((SkydimoLayoutType::Strip1, seq![72usize]))
    } else if id == "SK0403"@ {
        Some((SkydimoLayoutType::Strip1, seq![96usize]))
    } else if id == "SK0404"@ {
        Some((SkydimoLayoutType::Strip1, seq![144usize]))
    } else if id == "SK0901"@ {
        Some((SkydimoLayoutType::Strip1, seq![14usize]))
    } else if id == "SK0801"@ {
        Some((SkydimoLayoutType::Strip1, seq![2usize]))
    } else if id == "SK0803"@ {
        Some((SkydimoLayoutType::Strip1, seq![10usize]))
    } else if id == "SK0E01"@ {
        Some((SkydimoLayoutType::Strip1, seq![16usize]))
    } else {
        None
    }
}

/// Part of the model table.
pub open spec fn model_table_d(id: Seq<char>) -> Option<(SkydimoLayoutType, Seq<usize>)> {
    if id == "SK0H01"@ {
        Some((SkydimoLayoutType::Strip1, seq![2usize]))
    } else if id == "SK0H02"@ {
        Some((SkydimoLayoutType::Strip1, seq![4usize]))
    } else if id == "SK0S01"@ {
        Some((SkydimoLayoutType::Strip1, seq![32usize]))
    } else if id == "SK0K01"@ {
        Some((SkydimoLayoutType::Strip1, seq![120usize]))
    } else if id == "SK0K02"@ {
        Some((SkydimoLayoutType::Strip1, seq![15usize]))
    } else if id == "SK0M01"@ {
        Some((SkydimoLayoutType::Strip1, seq![24usize]))
    } else if id == "SK0N01"@ {
        Some((SkydimoLayoutType::Strip1, seq![256usize]))
    } else if id == "SK0N02"@ {
        Some((SkydimoLayoutType::Strip1, seq![1024usize]))
    } else if id == "SK0N03"@ {
        Some((SkydimoLayoutType::Strip1, seq![253usize]))
    } else {
        None
    }
}

/// The known models: layout and per-zone LED counts.
pub open spec fn model_table(id: Seq<char>) -> Option<(SkydimoLayoutType, Seq<usize>)> {
    if model_table_a(id) is Some {
        model_table_a(id)
    } else if model_table_b(id) is Some {
        model_table_b(id)
    } else if model_table_c(id) is Some {
        model_table_c(id)
    } else {
        model_table_d(id)
    }
}

/// Sum of a sequence of counts.
pub open spec fn seq_sum(s: Seq<usize>) -> int
    decreases s.len(),
{
    if s.len() == 0 {
        0
    } else {
        seq_sum(s.drop_last()) + s.last()
    }
}

/// The label of zone `i` for a layout.
pub open spec fn zone_label(layout: SkydimoLayoutType, i: int) -> Seq<char> {
    if layout == SkydimoLayoutType::Strip1 {
        "LED Strip"@
    } else if i == 0 {
        "Zone 1"@
    } else if i == 1 {
        "Zone 2"@
    } else if i == 2 {
        "Zone 3"@
    } else {
        "Zone 4"@
    }
}

/// `cfg` describes a model with the given layout and zone counts.
#[verifier::opaque]
pub open spec fn config_matches(
    cfg: SkydimoModelConfig,
    layout: SkydimoLayoutType,
    counts: Seq<usize>,
) -> bool {
    &&& cfg.layout == layout
    &&& cfg.zones@.len() == counts.len()
    &&& forall|i: int|
        0 <= i < counts.len() ==> #[trigger] cfg.zones@[i].led_count == counts[i]
            && cfg.zones@[i].name@ == zone_label(layout, i)
    &&& cfg.total_leds == seq_sum(counts)
}

/// At most four zones of at most 1024 LEDs each, as every known model has.
pub open spec fn small_config(cfg: SkydimoModelConfig) -> bool {
    cfg.zones@.len() <= 4 && forall|i: int| 0 <= i < cfg.zones@.len() ==> #[trigger] cfg.zones@[i].led_count <= 1024
}

fn zone_name(layout: SkydimoLayoutType, i: usize) -> (s: &'static str)
    ensures
        s@ == zone_label(layout, i as int),
{
    if layout == SkydimoLayoutType::Strip1 {
        "LED Strip"
    } else if i == 0 {
        "Zone 1"
    } else if i == 1 {
        "Zone 2"
    } else if i == 2 {
        "Zone 3"
    } else {
        "Zone 4"
    }
}

fn model_config(layout: SkydimoLayoutType, counts: Vec<usize>) -> (cfg: SkydimoModelConfig)
    requires
        counts.len() <= 4,
        forall|i: int| 0 <= i < counts.len() ==> counts[i] <= 1024,
    ensures
        config_matches(cfg, layout, counts@),
        small_config(cfg),
{
    let mut zones: Vec<SkydimoZoneConfig> = Vec::new();
    let mut total: usize = 0;
    let mut i: usize = 0;
    while i < counts.len()
        invariant
            i <= counts.len(),
            counts.len() <= 4,
            forall|j: int| 0 <= j < counts.len() ==> counts[j] <= 1024,
            zones@.len() == i,
            total as int == seq_sum(counts@.take(i as int)),
            total <= 1024 * i,
            forall|j: int| 0 <= j < i ==> #[trigger] zones@[j].led_count == counts@[j],
            forall|j: int| 0 <= j < i ==> #[trigger] zones@[j].name@ == zone_label(layout, j),
        decreases counts.len() - i,
    {
        assert(counts@.take(i as int + 1).drop_last() =~= counts@.take(i as int));
        zones.push(SkydimoZoneConfig { name: zone_name(layout, i), led_count: counts[i] });
        total = total + counts[i];
        i = i + 1;
    }
    assert(counts@.take(counts.len() as int) =~= counts@);
    reveal(config_matches);
    assert(forall|j: int| 0 <= j < zones@.len() ==> #[trigger] zones@[j].led_count <= 1024);
    SkydimoModelConfig { layout, zones, total_leds: total }
}

fn lookup_a(id: &Vec<char>) -> (r: Option<SkydimoModelConfig>)
    ensures
        match model_table_a(id@) {
            None => r is None,
            Some((layout, counts)) => r is Some && config_matches(r->0, layout, counts),
        },
        r matches Some(c) ==> small_config(c),
{
    if chars_equal(id, &chars_of("SK0201")) {
        let v = vec![20usize, 20];
        assert(v@ =~= seq![20usize, 20]);
        Some(model_config(SkydimoLayoutType::Sides2, v))
    } else if chars_equal(id, &chars_of("SK0202")) {
        let v = vec![30usize, 30];
        assert(v@ =~= seq![30usize, 30]);
        Some(model_config(SkydimoLayoutType::Sides2, v))
    } else if chars_equal(id, &chars_of("SK0204")) {
        let v = vec![25usize, 25];
        assert(v@ =~= seq![25usize, 25]);
        Some(model_config(SkydimoLayoutType::Sides2, v))
    } else if chars_equal(id, &chars_of("SK0F01")) {
        let v = vec![29usize, 29];
        assert(v@ =~= seq![29usize, 29]);
        Some(model_config(SkydimoLayoutType::Sides2, v))
    } else if chars_equal(id, &chars_of("SK0F02")) {
        let v = vec![25usize, 25];
        assert(v@ =~= seq![25usize, 25]);
        Some(model_config(SkydimoLayoutType::Sides2, v))
    } else if chars_equal(id, &chars_of("SK0121")) {
        let v = vec![13usize, 25, 13];
        assert(v@ =~= seq![13usize, 25, 13]);
        Some(model_config(SkydimoLayoutType::Perimeter3, v))
    } else if chars_equal(id, &chars_of("SK0124")) {
        let v = vec![14usize, 26, 14];
        assert(v@ =~= seq![14usize, 26, 14]);
        Some(model_config(SkydimoLayoutType::Perimeter3, v))
    } else if chars_equal(id, &chars_of("SK0127")) {
        let v = vec![17usize, 31, 17];
        assert(v@ =~= seq![17usize, 31, 17]);
        Some(model_config(SkydimoLayoutType::Perimeter3, v))
    } else if chars_equal(id, &chars_of("SK0132")) {
        let v = vec![20usize, 37, 20];
        assert(v@ =~= seq![20usize, 37, 20]);
        Some(model_config(SkydimoLayoutType::Perimeter3, v))
    } else {
        None
    }
}

fn lookup_b(id: &Vec<char>) -> (r: Option<SkydimoModelConfig>)
    ensures
        match model_table_b(id@) {
            None => r is None,
            Some((layout, counts)) => r is Some && config_matches(r->0, layout, counts),
        },
        r matches Some(c) ==> small_config(c),
{
    if chars_equal(id, &chars_of("SK0134")) {
        let v = vec![15usize, 41, 15];
        assert(v@ =~= seq![15usize, 41, 15]);
        Some(model_config(SkydimoLayoutType::Perimeter3, v))
    } else if chars_equal(id, &chars_of("SK0149")) {
        let v = vec![19usize, 69, 19];
        assert(v@ =~= seq![19usize, 69, 19]);
        Some(model_config(SkydimoLayoutType::Perimeter3, v))
    } else if chars_equal(id, &chars_of("SK0L21")) {
        let v = vec![13usize, 25, 13, 25];
        assert(v@ =~= seq![13usize, 25, 13, 25]);
        Some(model_config(SkydimoLayoutType::Perimeter4, v))
    } else if chars_equal(id, &chars_of("SK0L24")) {
        let v = vec![14usize, 26, 14, 26];
        assert(v@ =~= seq![14usize, 26, 14, 26]);
        Some(model_config(SkydimoLayoutType::Perimeter4, v))
    } else if chars_equal(id, &chars_of("SK0L27")) {
        let v = vec![17usize, 31, 17, 31];
        assert(v@ =~= seq![17usize, 31, 17, 31]);
        Some(model_config(SkydimoLayoutType::Perimeter4, v))
    } else if chars_equal(id, &chars_of("SK0L32")) {
        let v = vec![20usize, 37, 20, 37];
        assert(v@ =~= seq![20usize, 37, 20, 37]);
        Some(model_config(SkydimoLayoutType::Perimeter4, v))
    } else if chars_equal(id, &chars_of("SK0L34")) {
        let v = vec![15usize, 41, 15, 41];
        assert(v@ =~= seq![15usize, 41, 15, 41]);
        Some(model_config(SkydimoLayoutType::Perimeter4, v))
    } else if chars_equal(id, &chars_of("SKA124")) {
        let v = vec![18usize, 34, 18];
        assert(v@ =~= seq![18usize, 34, 18]);
        Some(model_config(SkydimoLayoutType::Perimeter3, v))
    } else if chars_equal(id, &chars_of("SKA127")) {
        let v = vec![20usize, 41, 20];
        assert(v@ =~= seq![20usize, 41, 20]);
        Some(model_config(SkydimoLayoutType::Perimeter3, v))
    } else {
        None
    }
}

fn lookup_c(id: &Vec<char>) -> (r: Option<SkydimoModelConfig>)
    ensures
        match model_table_c(id@) {
            None => r is None,
            Some((layout, counts)) => r is Some && config_matches(r->0, layout, counts),
        },
        r matches Some(c) ==> small_config(c),
{
    if chars_equal(id, &chars_of("SKA132")) {
        let v = vec![25usize, 45, 25];
        assert(v@ =~= seq![25usize, 45, 25]);
        Some(model_config(SkydimoLayoutType::Perimeter3, v))
    } else if chars_equal(id, &chars_of("SKA134")) {
        let v = vec![21usize, 51, 21];
        assert(v@ =~= seq![21usize, 51, 21]);
        Some(model_config(SkydimoLayoutType::Perimeter3, v))
    } else if chars_equal(id, &chars_of("SK0402")) {
        let v = vec![72usize];
        assert(v@ =~= seq![72usize]);
        Some(model_config(SkydimoLayoutType::Strip1, v))
    } else if chars_equal(id, &chars_of("SK0403")) {
        let v = vec![96usize];
        assert(v@ =~= seq![96usize]);
        Some(model_config(SkydimoLayoutType::Strip1, v))
    } else if chars_equal(id, &chars_of("SK0404")) {
        let v = vec![144usize];
        assert(v@ =~= seq![144usize]);
        Some(model_config(SkydimoLayoutType::Strip1, v))
    } else if chars_equal(id, &chars_of("SK0901")) {
        let v = vec![14usize];
        assert(v@ =~= seq![14usize]);
        Some(model_config(SkydimoLayoutType::Strip1, v))
    } else if chars_equal(id, &chars_of("SK0801")) {
        let v = vec![2usize];
        assert(v@ =~= seq![2usize]);
        Some(model_config(SkydimoLayoutType::Strip1, v))
    } else if chars_equal(id, &chars_of("SK0803")) {
        let v = vec![10usize];
        assert(v@ =~= seq![10usize]);
        Some(model_config(SkydimoLayoutType::Strip1, v))
    } else if chars_equal(id, &chars_of("SK0E01")) {
        let v = vec![16usize];
        assert(v@ =~= seq![16usize]);
        Some(model_config(SkydimoLayoutType::Strip1, v))
    } else {
        None
    }
}

fn lookup_d(id: &Vec<char>) -> (r: Option<SkydimoModelConfig>)
    ensures
        match model_table_d(id@) {
            None => r is None,
            Some((layout, counts)) => r is Some && config_matches(r->0, layout, counts),
        },
        r matches Some(c) ==> small_config(c),
{
    if chars_equal(id, &chars_of("SK0H01")) {
        let v = vec![2usize];
        assert(v@ =~= seq![2usize]);
        Some(model_config(SkydimoLayoutType::Strip1, v))
    } else if chars_equal(id, &chars_of("SK0H02")) {
        let v = vec![4usize];
        assert(v@ =~= seq![4usize]);
        Some(model_config(SkydimoLayoutType::Strip1, v))
    } else if chars_equal(id, &chars_of("SK0S01")) {
        let v = vec![32usize];
        assert(v@ =~= seq![32usize]);
        Some(model_config(SkydimoLayoutType::Strip1, v))
    } else if chars_equal(id, &chars_of("SK0K01")) {
        let v = vec![120usize];
        assert(v@ =~= seq![120usize]);
        Some(model_config(SkydimoLayoutType::Strip1, v))
    } else if chars_equal(id, &chars_of("SK0K02")) {
        let v = vec![15usize];
        assert(v@ =~= seq![15usize]);
        Some(model_config(SkydimoLayoutType::Strip1, v))
    } else if chars_equal(id, &chars_of("SK0M01")) {
        let v = vec![24usize];
        assert(v@ =~= seq![24usize]);
        Some(model_config(SkydimoLayoutType::Strip1, v))
    } else if chars_equal(id, &chars_of("SK0N01")) {
        let v = vec![256usize];
        assert(v@ =~= seq![256usize]);
        Some(model_config(SkydimoLayoutType::Strip1, v))
    } else if chars_equal(id, &chars_of("SK0N02")) {
        let v = vec![1024usize];
        assert(v@ =~= seq![1024usize]);
        Some(model_config(SkydimoLayoutType::Strip1, v))
    } else if chars_equal(id, &chars_of("SK0N03")) {
        let v = vec![253usize];
        assert(v@ =~= seq![253usize]);
        Some(model_config(SkydimoLayoutType::Strip1, v))
    } else {
        None
    }
}

/// Looks up a Skydimo model by its id (e.g. "SK0121").
pub fn get_skydimo_model_config(model_id: &str) -> (r: Option<SkydimoModelConfig>)
    ensures
        match model_table(model_id@) {
            None => r is None,
            Some((layout, counts)) => r is Some && config_matches(r->0, layout, counts),
        },
        r matches Some(c) ==> small_config(c),
{
    let id = chars_of(model_id);
    let a = lookup_a(&id);
    if a.is_some() {
        return a;
    }
    let b = lookup_b(&id);
    if b.is_some() {
        return b;
    }
    let c = lookup_c(&id);
    if c.is_some() {
        return c;
    }
    lookup_d(&id)
}


/// The LED count of zone `k`, or 0 when the model has fewer zones.
pub open spec fn zone_at(counts: Seq<usize>, k: int) -> int {
    if 0 <= k < counts.len() {
        counts[k] as int
    } else {
        0
    }
}

pub open spec fn imax(a: int, b: int) -> int {
    if a >= b {
        a
    } else {
        b
    }
}

pub open spec fn imin(a: int, b: int) -> int {
    if a <= b {
        a
    } else {
        b
    }
}

/// Matrix height of a layout.
pub open spec fn layout_height(layout: SkydimoLayoutType, z: Seq<usize>) -> int {
    match layout {
        SkydimoLayoutType::Perimeter4 => imax(zone_at(z, 0), zone_at(z, 2)) + 2,
        SkydimoLayoutType::Perimeter3 => imax(zone_at(z, 0), zone_at(z, 2)) + 1,
        SkydimoLayoutType::Sides2 => imax(zone_at(z, 0), zone_at(z, 1)) + 2,
        SkydimoLayoutType::Strip1 => 0,
    }
}

/// Width of a two-sided layout: 16/9 of the height, rounded to the nearest integer, at least 3.
pub open spec fn sides_width(h: int) -> int {
    imax((32 * h + 9) / 18, 3)
}

/// Matrix width of a layout.
pub open spec fn layout_width(layout: SkydimoLayoutType, z: Seq<usize>) -> int {
    match layout {
        SkydimoLayoutType::Perimeter4 => imax(zone_at(z, 1), zone_at(z, 3)) + 2,
        SkydimoLayoutType::Perimeter3 => zone_at(z, 1) + 2,
        SkydimoLayoutType::Sides2 => sides_width(layout_height(layout, z)),
        SkydimoLayoutType::Strip1 => 0,
    }
}

/// Cells `y * w + x` of a vertical run of `n` LEDs starting at row `y0`.
pub open spec fn column_run(n: int, y0: int, down: bool, x: int, w: int) -> Seq<int> {
    Seq::new(imax(n, 0) as nat, |i: int| (if down { y0 - i } else { y0 + i }) * w + x)
}

/// Cells `y * w + x` of a horizontal run of `n` LEDs starting at column `x0`.
pub open spec fn row_run(n: int, y: int, x0: int, leftward: bool, w: int) -> Seq<int> {
    Seq::new(imax(n, 0) as nat, |i: int| y * w + (if leftward { x0 - i } else { x0 + i }))
}

/// The matrix cells of a layout in the order in which LED indices are assigned:
/// zone 1, zone 2, zone 3, zone 4, each run skipping the corners.
pub open spec fn layout_cells(layout: SkydimoLayoutType, z: Seq<usize>) -> Seq<int> {
    let h = layout_height(layout, z);
    let w = layout_width(layout, z);
    match layout {
        SkydimoLayoutType::Sides2 => column_run(imin(zone_at(z, 0), h - 2), h - 2, true, 0, w)
            + column_run(imin(zone_at(z, 1), h - 2), 1, false, w - 1, w)
            + column_run(imin(zone_at(z, 2), h - 2), 1, false, 0, w),
        SkydimoLayoutType::Perimeter3 => column_run(imin(zone_at(z, 0), h - 1), h - 1, true, w - 1, w)
            + row_run(imin(zone_at(z, 1), w - 2), 0, w - 2, true, w)
            + column_run(imin(zone_at(z, 2), h - 1), 1, false, 0, w),
        SkydimoLayoutType::Perimeter4 => column_run(imin(zone_at(z, 0), h - 2), h - 2, true, w - 1, w)
            + row_run(imin(zone_at(z, 1), w - 2), 0, w - 2, true, w)
            + column_run(imin(zone_at(z, 2), h - 2), 1, false, 0, w)
            + row_run(imin(zone_at(z, 3), w - 2), h - 1, 1, false, w),
        SkydimoLayoutType::Strip1 => Seq::empty(),
    }
}

/// A map of `size` cells in which LED index `i` is written to cell `cells[i]`, in order,
/// so that a later index overwrites an earlier one at the same cell.
pub open spec fn paint(cells: Seq<int>, size: nat) -> Seq<Option<usize>>
    decreases cells.len(),
{
    if cells.len() == 0 {
        Seq::new(size, |i: int| None)
    } else {
        let prev = paint(cells.drop_last(), size);
        let p = cells.last();
        if 0 <= p < size {
            prev.update(p, Some((cells.len() - 1) as usize))
        } else {
            prev
        }
    }
}

/// The zone LED counts of a model configuration.
pub open spec fn config_counts(cfg: SkydimoModelConfig) -> Seq<usize> {
    cfg.zones@.map_values(|zc: SkydimoZoneConfig| zc.led_count)
}

/// The matrix of a layout fits in memory.
pub open spec fn layout_fits(layout: SkydimoLayoutType, z: Seq<usize>) -> bool {
    &&& layout_height(layout, z) * layout_width(layout, z) <= isize::MAX
    &&& 32 * layout_height(layout, z) + 9 <= isize::MAX
    &&& 2 * layout_height(layout, z) + 2 * layout_width(layout, z) <= isize::MAX
}

/// `r` is the default layout of a model with the given layout and zone counts.
pub open spec fn is_default_layout(
    r: SkydimoDefaultLayout,
    layout: SkydimoLayoutType,
    z: Seq<usize>,
    total: int,
) -> bool {
    &&& r.total_leds == total
    &&& if layout == SkydimoLayoutType::Strip1 {
        r.segment_type == SegmentType::Linear && r.matrix is None
    } else {
        let h = layout_height(layout, z);
        let w = layout_width(layout, z);
        &&& r.segment_type == SegmentType::Matrix
        &&& r.matrix is Some
        &&& r.matrix->0.width == w
        &&& r.matrix->0.height == h
        &&& r.matrix->0.map@ == paint(layout_cells(layout, z), (h * w) as nat)
    }
}

proof fn lemma_paint_push(cells: Seq<int>, p: int, size: nat)
    requires
        0 <= p < size,
    ensures
        paint(cells.push(p), size) == paint(cells, size).update(p, Some(cells.len() as usize)),
{
    assert(cells.push(p).drop_last() =~= cells);
}

proof fn lemma_paint_len(cells: Seq<int>, size: nat)
    ensures
        paint(cells, size).len() == size,
    decreases cells.len(),
{
    if cells.len() > 0 {
        lemma_paint_len(cells.drop_last(), size);
    }
}

proof fn lemma_cell_bound(y: int, x: int, h: int, w: int)
    requires
        0 <= y < h,
        0 <= x < w,
    ensures
        0 <= y * w + x < h * w,
        y * w + x <= h * w - 1,
{
    assert(y * w <= (h - 1) * w) by (nonlinear_arith)
        requires
            0 <= y < h,
            0 <= x < w,
    ;
    assert((h - 1) * w == h * w - w) by (nonlinear_arith);
    assert(0 <= y * w) by (nonlinear_arith)
        requires
            0 <= y,
            0 <= x < w,
    ;
}

/// Writes the indices of a vertical run into the map.
fn paint_column(
    map: &mut Vec<Option<usize>>,
    idx: &mut usize,
    n: usize,
    y0: usize,
    down: bool,
    x: usize,
    h: usize,
    w: usize,
    Ghost(base): Ghost<Seq<int>>,
)
    requires
        h * w <= isize::MAX,
        old(map).len() == h * w,
        old(map)@ == paint(base, (h * w) as nat),
        *old(idx) == base.len(),
        base.len() + n <= isize::MAX,
        x < w,
        if down {
            n <= y0 + 1 && y0 < h
        } else {
            y0 + n <= h
        },
    ensures
        final(map).len() == h * w,
        final(map)@ == paint(base + column_run(n as int, y0 as int, down, x as int, w as int), (h * w) as nat),
        *final(idx) == base.len() + n,
{
    let ghost run = column_run(n as int, y0 as int, down, x as int, w as int);
    let mut i: usize = 0;
    assert(base + run.take(0) =~= base);
    while i < n
        invariant
            i <= n,
            h * w <= isize::MAX,
            map.len() == h * w,
            map@ == paint(base + run.take(i as int), (h * w) as nat),
            *idx == base.len() + i,
            base.len() + n <= isize::MAX,
            x < w,
            run == column_run(n as int, y0 as int, down, x as int, w as int),
            if down {
                n <= y0 + 1 && y0 < h
            } else {
                y0 + n <= h
            },
        decreases n - i,
    {
        let y: usize = if down { y0 - i } else { y0 + i };
        proof {
            lemma_cell_bound(y as int, x as int, h as int, w as int);
        }
        let p: usize = y * w + x;
        proof {
            assert(run[i as int] == p as int);
            assert((base + run.take(i + 1)) =~= (base + run.take(i as int)).push(p as int));
            lemma_paint_push(base + run.take(i as int), p as int, (h * w) as nat);
        }
        map.set(p, Some(*idx));
        *idx = *idx + 1;
        i = i + 1;
    }
    assert(run.take(n as int) =~= run);
}

/// Writes the indices of a horizontal run into the map.
fn paint_row(
    map: &mut Vec<Option<usize>>,
    idx: &mut usize,
    n: usize,
    y: usize,
    x0: usize,
    leftward: bool,
    h: usize,
    w: usize,
    Ghost(base): Ghost<Seq<int>>,
)
    requires
        h * w <= isize::MAX,
        old(map).len() == h * w,
        old(map)@ == paint(base, (h * w) as nat),
        *old(idx) == base.len(),
        base.len() + n <= isize::MAX,
        y < h,
        if leftward {
            n <= x0 + 1 && x0 < w
        } else {
            x0 + n <= w
        },
    ensures
        final(map).len() == h * w,
        final(map)@ == paint(base + row_run(n as int, y as int, x0 as int, leftward, w as int), (h * w) as nat),
        *final(idx) == base.len() + n,
{
    let ghost run = row_run(n as int, y as int, x0 as int, leftward, w as int);
    let mut i: usize = 0;
    assert(base + run.take(0) =~= base);
    while i < n
        invariant
            i <= n,
            h * w <= isize::MAX,
            map.len() == h * w,
            map@ == paint(base + run.take(i as int), (h * w) as nat),
            *idx == base.len() + i,
            base.len() + n <= isize::MAX,
            y < h,
            run == row_run(n as int, y as int, x0 as int, leftward, w as int),
            if leftward {
                n <= x0 + 1 && x0 < w
            } else {
                x0 + n <= w
            },
        decreases n - i,
    {
        let x: usize = if leftward { x0 - i } else { x0 + i };
        proof {
            lemma_cell_bound(y as int, x as int, h as int, w as int);
        }
        let p: usize = y * w + x;
        proof {
            assert(run[i as int] == p as int);
            assert((base + run.take(i + 1)) =~= (base + run.take(i as int)).push(p as int));
            lemma_paint_push(base + run.take(i as int), p as int, (h * w) as nat);
        }
        map.set(p, Some(*idx));
        *idx = *idx + 1;
        i = i + 1;
    }
    assert(run.take(n as int) =~= run);
}

fn zone_count(cfg: &SkydimoModelConfig, k: usize) -> (n: usize)
    ensures
        n as int == zone_at(config_counts(*cfg), k as int),
{
    if k < cfg.zones.len() {
        cfg.zones[k].led_count
    } else {
        0
    }
}

fn umax(a: usize, b: usize) -> (r: usize)
    ensures
        r as int == imax(a as int, b as int),
{
    if a >= b {
        a
    } else {
        b
    }
}

fn umin(a: usize, b: usize) -> (r: usize)
    ensures
        r as int == imin(a as int, b as int),
{
    if a <= b {
        a
    } else {
        b
    }
}

fn empty_map(n: usize) -> (m: Vec<Option<usize>>)
    ensures
        m@ == Seq::new(n as nat, |i: int| None::<usize>),
{
    let mut m: Vec<Option<usize>> = Vec::new();
    let mut i: usize = 0;
    while i < n
        invariant
            i <= n,
            m@ == Seq::new(i as nat, |j: int| None::<usize>),
        decreases n - i,
    {
        m.push(None);
        i = i + 1;
        assert(m@ =~= Seq::new(i as nat, |j: int| None::<usize>));
    }
    m
}

/// Builds the default layout of a model: a linear strip, or a matrix whose border cells
/// carry the LED indices zone by zone.
fn build_matrix_for_config(config: &SkydimoModelConfig) -> (r: Option<SkydimoDefaultLayout>)
    requires
        layout_fits(config.layout, config_counts(*config)),
    ensures
        r is Some,
        is_default_layout(r->0, config.layout, config_counts(*config), config.total_leds as int),
{
    let ghost z = config_counts(*config);
    let z1 = zone_count(config, 0);
    let z2 = zone_count(config, 1);
    let z3 = zone_count(config, 2);
    let z4 = zone_count(config, 3);
    let total_leds = config.total_leds;
    if config.layout == SkydimoLayoutType::Strip1 {
        return Some(SkydimoDefaultLayout { total_leds, segment_type: SegmentType::Linear, matrix: None });
    }
    let ghost hh = layout_height(config.layout, z);
    let ghost ww = layout_width(config.layout, z);
    proof {
        assert(hh >= 1);
        assert(ww >= 2);
        assert(hh <= hh * ww) by (nonlinear_arith)
            requires
                ww >= 1,
                hh >= 0,
        ;
        assert(ww <= hh * ww) by (nonlinear_arith)
            requires
                ww >= 0,
                hh >= 1,
        ;
    }
    let height: usize = match config.layout {
        SkydimoLayoutType::Perimeter4 => umax(z1, z3) + 2,
        SkydimoLayoutType::Perimeter3 => umax(z1, z3) + 1,
        _ => umax(z1, z2) + 2,
    };
    let width: usize = match config.layout {
        SkydimoLayoutType::Perimeter4 => umax(z2, z4) + 2,
        SkydimoLayoutType::Perimeter3 => z2 + 2,
        _ => {
            let wf = (32 * height + 9) / 18;
            if wf < 3 { 3 } else { wf }
        },
    };
    assert(height as int == hh);
    assert(width as int == ww);
    let cell_count = height * width;
    let mut map = empty_map(cell_count);
    let mut idx: usize = 0;
    let ghost mut placed: Seq<int> = Seq::empty();
    assert(map@ == paint(placed, (height * width) as nat));
    match config.layout {
        SkydimoLayoutType::Sides2 => {
            let n1 = umin(z1, height - 2);
            paint_column(&mut map, &mut idx, n1, height - 2, true, 0, height, width, Ghost(placed));
            proof { placed = placed + column_run(n1 as int, height - 2, true, 0, width as int); }
            let n2 = umin(z2, height - 2);
            paint_column(&mut map, &mut idx, n2, 1, false, width - 1, height, width, Ghost(placed));
            proof { placed = placed + column_run(n2 as int, 1, false, width - 1, width as int); }
            let n3 = umin(z3, height - 2);
            paint_column(&mut map, &mut idx, n3, 1, false, 0, height, width, Ghost(placed));
            proof { placed = placed + column_run(n3 as int, 1, false, 0, width as int); }
        },
        SkydimoLayoutType::Perimeter3 => {
            let n1 = umin(z1, height - 1);
            paint_column(&mut map, &mut idx, n1, height - 1, true, width - 1, height, width, Ghost(placed));
            proof { placed = placed + column_run(n1 as int, height - 1, true, width - 1, width as int); }
            let n2 = umin(z2, width - 2);
            paint_row(&mut map, &mut idx, n2, 0, width - 2, true, height, width, Ghost(placed));
            proof { placed = placed + row_run(n2 as int, 0, width - 2, true, width as int); }
            let n3 = umin(z3, height - 1);
            paint_column(&mut map, &mut idx, n3, 1, false, 0, height, width, Ghost(placed));
            proof { placed = placed + column_run(n3 as int, 1, false, 0, width as int); }
        },
        _ => {
            let n1 = umin(z1, height - 2);
            paint_column(&mut map, &mut idx, n1, height - 2, true, width - 1, height, width, Ghost(placed));
            proof { placed = placed + column_run(n1 as int, height - 2, true, width - 1, width as int); }
            let n2 = umin(z2, width - 2);
            paint_row(&mut map, &mut idx, n2, 0, width - 2, true, height, width, Ghost(placed));
            proof { placed = placed + row_run(n2 as int, 0, width - 2, true, width as int); }
            let n3 = umin(z3, height - 2);
            paint_column(&mut map, &mut idx, n3, 1, false, 0, height, width, Ghost(placed));
            proof { placed = placed + column_run(n3 as int, 1, false, 0, width as int); }
            let n4 = umin(z4, width - 2);
            paint_row(&mut map, &mut idx, n4, height - 1, 1, false, height, width, Ghost(placed));
            proof { placed = placed + row_run(n4 as int, height - 1, 1, false, width as int); }
        },
    }
    assert(placed =~= layout_cells(config.layout, z));
    let matrix = MatrixMap { width, height, map };
    Some(SkydimoDefaultLayout { total_leds, segment_type: SegmentType::Matrix, matrix: Some(matrix) })
}

/// The first occurrence of the brand prefix.
pub open spec fn brand_prefix() -> Seq<char> {
    "Skydimo "@
}

/// Extracts the model id from a full device name like "Skydimo SK0121": the text after
/// the first "Skydimo ", when some text follows it.
pub fn extract_model_from_device_name(device_name: &str) -> (r: Option<&str>)
    ensures
        match r {
            Some(rest) => exists|k: int|
                is_first_occurrence(device_name@, brand_prefix(), k) && k + 8 < device_name@.len()
                    && rest@ == device_name@.subrange(k + 8, device_name@.len() as int),
            None => (forall|k: int| !occurs_at(device_name@, brand_prefix(), k)) || exists|k: int|
                is_first_occurrence(device_name@, brand_prefix(), k) && k + 8 == device_name@.len(),
        },
{
    proof {
        reveal_strlit("Skydimo ");
    }
    let prefix = "Skydimo ";
    let name = chars_of(device_name);
    let pat = chars_of(prefix);
    let nlen = name.len();
    assert(pat@ == brand_prefix());
    assert(pat@.len() == 8);
    match find_chars(&name, &pat) {
        Some(pos) => {
            assert(is_first_occurrence(device_name@, brand_prefix(), pos as int));
            assert(occurs_at(name@, pat@, pos as int));
            assert(pos + 8 <= name@.len());
            let start = pos + 8;
            if start < nlen {
                Some(device_name.substring_char(start, nlen))
            } else {
                None
            }
        },
        None => None,
    }
}

/// The model id that follows the first "Skydimo " in a device name, if any text follows it.
pub open spec fn extracted_model(name: Seq<char>) -> Option<Seq<char>> {
    if exists|k: int| is_first_occurrence(name, brand_prefix(), k) && k + 8 < name.len() {
        let k = choose|k: int| is_first_occurrence(name, brand_prefix(), k) && k + 8 < name.len();
        Some(name.subrange(k + 8, name.len() as int))
    } else {
        None
    }
}

/// The model a device name designates: the id after "Skydimo " when it is a known model,
/// else the whole name without surrounding white space.
pub open spec fn layout_source(name: Seq<char>) -> Option<(SkydimoLayoutType, Seq<usize>)> {
    match extracted_model(name) {
        Some(m) => if model_table(m) is Some {
            model_table(m)
        } else {
            model_table(trimmed(name))
        },
        None => model_table(trimmed(name)),
    }
}

proof fn lemma_first_occurrence_unique(s: Seq<char>, p: Seq<char>, a: int, b: int)
    requires
        is_first_occurrence(s, p, a),
        is_first_occurrence(s, p, b),
    ensures
        a == b,
{
}

proof fn lemma_extracted(name: Seq<char>, r: Option<Seq<char>>)
    requires
        match r {
            Some(rest) => exists|k: int|
                is_first_occurrence(name, brand_prefix(), k) && k + 8 < name.len()
                    && rest == name.subrange(k + 8, name.len() as int),
            None => (forall|k: int| !occurs_at(name, brand_prefix(), k)) || exists|k: int|
                is_first_occurrence(name, brand_prefix(), k) && k + 8 == name.len(),
        },
    ensures
        extracted_model(name) == r,
{
    match r {
        Some(rest) => {
            let k = choose|k: int|
                is_first_occurrence(name, brand_prefix(), k) && k + 8 < name.len()
                    && rest == name.subrange(k + 8, name.len() as int);
            let k2 = choose|k: int| is_first_occurrence(name, brand_prefix(), k) && k + 8 < name.len();
            lemma_first_occurrence_unique(name, brand_prefix(), k, k2);
        },
        None => {
            if exists|k: int| is_first_occurrence(name, brand_prefix(), k) && k + 8 < name.len() {
                let k2 = choose|k: int| is_first_occurrence(name, brand_prefix(), k) && k + 8 < name.len();
                if !(forall|k: int| !occurs_at(name, brand_prefix(), k)) {
                    let k3 = choose|k: int| is_first_occurrence(name, brand_prefix(), k) && k + 8 == name.len();
                    lemma_first_occurrence_unique(name, brand_prefix(), k2, k3);
                }
            }
        },
    }
}

proof fn lemma_small_fits(cfg: SkydimoModelConfig)
    requires
        small_config(cfg),
    ensures
        layout_fits(cfg.layout, config_counts(cfg)),
{
    let z = config_counts(cfg);
    assert forall|k: int| 0 <= k < z.len() implies z[k] <= 1024 by {
        assert(z[k] == cfg.zones@[k].led_count);
    }
    let h = layout_height(cfg.layout, z);
    let w = layout_width(cfg.layout, z);
    assert(0 <= h <= 1026);
    assert(0 <= w <= 2000);
    assert(h * w <= 1026 * 2000) by (nonlinear_arith)
        requires
            0 <= h <= 1026,
            0 <= w <= 2000,
    ;
}

fn layout_for_config(cfg: &SkydimoModelConfig, Ghost(layout): Ghost<SkydimoLayoutType>, Ghost(counts): Ghost<Seq<usize>>) -> (r: Option<SkydimoDefaultLayout>)
    requires
        config_matches(*cfg, layout, counts),
        small_config(*cfg),
    ensures
        r is Some && is_default_layout(r->0, layout, counts, seq_sum(counts)),
{
    proof {
        reveal(config_matches);
        assert(config_counts(*cfg) =~= counts);
        lemma_small_fits(*cfg);
    }
    build_matrix_for_config(cfg)
}

/// Builds the best-guess default layout from a full device name: first from the model id
/// after "Skydimo ", then from the whole (trimmed) name as a model id.
pub fn build_layout_from_device_name(device_name: &str) -> (r: Option<SkydimoDefaultLayout>)
    ensures
        match layout_source(device_name@) {
            None => r is None,
            Some((layout, counts)) => r is Some && is_default_layout(r->0, layout, counts, seq_sum(counts)),
        },
{
    let extracted = extract_model_from_device_name(device_name);
    proof {
        lemma_extracted(device_name@, match extracted { Some(m) => Some(m@), None => None });
    }
    if let Some(model_id) = extracted {
        if let Some(config) = get_skydimo_model_config(model_id) {
            return layout_for_config(&config, Ghost((model_table(model_id@)->0).0), Ghost((model_table(model_id@)->0).1));
        }
    }
    let whole = trim_str(device_name);
    if let Some(config) = get_skydimo_model_config(whole) {
        return layout_for_config(&config, Ghost((model_table(whole@)->0).0), Ghost((model_table(whole@)->0).1));
    }
    None
}

/// The Adalight frame for a color stream: "Ada\0", the LED count (high byte, low byte),
/// then the colors as R, G, B bytes.
pub open spec fn ada_frame(colors: Seq<Color>) -> Seq<u8> {
    let n = colors.len() as int;
    seq![0x41u8, 0x64u8, 0x61u8, 0x00u8, ((n / 256) % 256) as u8, (n % 256) as u8] + rgb_bytes(colors)
}

/// An Adalight frame for up to 65535 LEDs is "Ada" and a zero byte, then the LED count
/// as two bytes, high byte first, then each LED's red, green and blue bytes in order.
pub proof fn law_ada_frame_layout(colors: Seq<Color>)
    requires
        colors.len() < 65536,
    ensures
        ada_frame(colors).len() == 6 + 3 * colors.len(),
        ada_frame(colors)[0] == 0x41u8 && ada_frame(colors)[1] == 0x64u8 && ada_frame(colors)[2] == 0x61u8
            && ada_frame(colors)[3] == 0u8,
        ada_frame(colors)[4] as int * 256 + ada_frame(colors)[5] as int == colors.len(),
        forall|i: int| 0 <= i < colors.len() ==> {
            &&& #[trigger] ada_frame(colors)[6 + 3 * i] == colors[i].r
            &&& ada_frame(colors)[6 + 3 * i + 1] == colors[i].g
            &&& ada_frame(colors)[6 + 3 * i + 2] == colors[i].b
        },
{
    let n = colors.len() as int;
    assert((n / 256) % 256 == n / 256 && (n / 256) * 256 + n % 256 == n) by (nonlinear_arith)
        requires 0 <= n < 65536;
    assert forall|i: int| 0 <= i < colors.len() implies {
        &&& #[trigger] ada_frame(colors)[6 + 3 * i] == colors[i].r
        &&& ada_frame(colors)[6 + 3 * i + 1] == colors[i].g
        &&& ada_frame(colors)[6 + 3 * i + 2] == colors[i].b
    } by {
        assert((3 * i) / 3 == i && (3 * i) % 3 == 0) by (nonlinear_arith) requires 0 <= i;
        assert((3 * i + 1) / 3 == i && (3 * i + 1) % 3 == 1) by (nonlinear_arith) requires 0 <= i;
        assert((3 * i + 2) / 3 == i && (3 * i + 2) % 3 == 2) by (nonlinear_arith) requires 0 <= i;
        assert(3 * i + 2 < 3 * colors.len()) by (nonlinear_arith) requires 0 <= i < colors.len();
    }
}

/// The Skydimo serial protocol.
pub struct SkydimoSerialProtocol;

impl SkydimoSerialProtocol {
    /// Encodes a frame into `buffer`, replacing its contents.
    pub fn encode_into(colors: &[Color], buffer: &mut Vec<u8>)
        requires
            6 + 3 * colors@.len() <= usize::MAX,
        ensures
            final(buffer)@ == ada_frame(colors@),
    {
        let count = colors.len();
        buffer.clear();
        buffer.push(0x41);
        buffer.push(0x64);
        buffer.push(0x61);
        buffer.push(0x00);
        buffer.push(((count >> 8) & 0xFF) as u8);
        buffer.push((count & 0xFF) as u8);
        proof {
            assert(((count >> 8) & 0xFF) == (count / 256) % 256) by (bit_vector);
            assert((count & 0xFF) == count % 256) by (bit_vector);
        }
        let ghost head = buffer@;
        append_rgb(colors, buffer);
        assert(head =~= seq![0x41u8, 0x64u8, 0x61u8, 0x00u8, ((count as int / 256) % 256) as u8, (count as int % 256) as u8]);
    }

    /// Reads the device's answer to the handshake, "Model,Serial" and a line end, decoded
    /// as UTF-8 with invalid sequences replaced: the model is the text before the first
    /// comma, the serial the upper-case hexadecimal text of the UTF-8 bytes after it,
    /// with surrounding whitespace trimmed.
    pub fn parse_handshake_response(response: &[u8]) -> (r: Result<(String, String), String>)
        ensures
            response@.len() == 0 ==> (r matches Err(e) && e@ == "No data received"@),
            response@.len() > 0 ==> handshake_text_outcome(utf8_lossy(response@), r),
    {
        if response.len() == 0 {
            return Err(crate::text::owned("No data received"));
        }
        let text = utf8_lossy_string(response);
        Self::parse_handshake_text(text.as_str())
    }

    /// Reads the decoded handshake answer "Model,Serial": the model is the text before the
    /// first comma, the serial the upper-case hexadecimal text of the UTF-8 bytes after it,
    /// with surrounding whitespace trimmed; without a comma the answer is refused.
    pub fn parse_handshake_text(text: &str) -> (r: Result<(String, String), String>)
        ensures
            handshake_text_outcome(text@, r),
    {
        let chars = chars_of(text);
        let mut p: usize = 0;
        while p < chars.len()
            invariant
                chars@ == text@,
                p <= chars@.len(),
                forall|i: int| 0 <= i < p ==> #[trigger] chars@[i] != ',',
            ensures
                p <= chars@.len(),
                p < chars@.len() ==> chars@[p as int] == ',',
                forall|i: int| 0 <= i < p ==> #[trigger] chars@[i] != ',',
            decreases chars.len() - p,
        {
            if chars[p] == ',' {
                break;
            }
            p = p + 1;
        }
        if p == chars.len() {
            return Err(crate::text::owned("Invalid response format"));
        }
        assert(is_first_comma(text@, p as int));
        let model = crate::text::owned(text.substring_char(0, p));
        let after = text.substring_char(p + 1, chars.len());
        let serial_part = trim_str(after);
        let hex = hex_encode(serial_part.as_bytes());
        proof {
            lemma_hex_lower_upper(encode_utf8(serial_part@));
        }
        let serial = upper_hex(hex.as_str());
        assert(text@.subrange(0, p as int) =~= text@.take(p as int));
        assert(text@.subrange(p + 1, chars@.len() as int) =~= text@.skip(p + 1));
        Ok((model, serial))
    }
}

/// What reading a decoded handshake answer `t` gives: the model before the first comma
/// and the upper-case hexadecimal serial after it, or "Invalid response format" exactly
/// when `t` has no comma.
pub open spec fn handshake_text_outcome(t: Seq<char>, r: Result<(String, String), String>) -> bool {
    match r {
        Ok((model, serial)) => exists|p: int| #[trigger] is_first_comma(t, p)
            && model@ == t.take(p)
            && serial@ == hex_upper(encode_utf8(trimmed(t.skip(p + 1)))),
        Err(e) => e@ == "Invalid response format"@
            && forall|i: int| 0 <= i < t.len() ==> #[trigger] t[i] != ',',
    }
}

/// `p` is the position of the first comma in `s`.
pub open spec fn is_first_comma(s: Seq<char>, p: int) -> bool {
    0 <= p < s.len() && s[p] == ',' && forall|i: int| 0 <= i < p ==> #[trigger] s[i] != ','
}


} // verus!
