//! Replacing the user-defined segments of an output port.
use vstd::prelude::*;
use crate::layout::{CapabilitiesView, OutputPortDefinition, SegmentDefinition, SegmentType, duplicate_opt_matrix, opt_matrix_view};
use crate::scope::{
    DeviceConfig, DeviceView, ModeConfig, OutputConfig, OutputView, SegmentConfig, SegmentView, default_mode, lemma_out_index,
    out_index, segment_views,
};
use crate::text::{append_decimal, concat3, decimal, owned, str_equal};

verus! {

/// The name a segment type is printed with.
pub open spec fn segment_type_label(t: SegmentType) -> Seq<char> {
    match t {
        SegmentType::Single => "Single"@,
        SegmentType::Linear => "Linear"@,
        SegmentType::Matrix => "Matrix"@,
    }
}

fn segment_type_str(t: SegmentType) -> (s: &'static str)
    ensures
        s@ == segment_type_label(t),
{
    match t {
        SegmentType::Single => "Single",
        SegmentType::Linear => "Linear",
        SegmentType::Matrix => "Matrix",
    }
}

/// The number of cells of a matrix map that hold an LED.
pub open spec fn led_cells(map: Seq<Option<usize>>) -> nat
    decreases map.len(),
{
    if map.len() == 0 {
        0
    } else {
        led_cells(map.drop_last()) + if map.last() is Some { 1nat } else { 0nat }
    }
}

/// The sum of the LED counts of the segment definitions.
pub open spec fn leds_total(defs: Seq<SegmentDefinition>) -> nat
    decreases defs.len(),
{
    if defs.len() == 0 {
        0
    } else {
        leds_total(defs.drop_last()) + defs.last().leds_count as nat
    }
}

/// The numbers separated by ", ".
pub open spec fn joined(s: Seq<usize>) -> Seq<char>
    decreases s.len(),
{
    if s.len() == 0 {
        Seq::empty()
    } else if s.len() == 1 {
        decimal(s[0] as nat)
    } else {
        joined(s.drop_last()) + ", "@ + decimal(s.last() as nat)
    }
}

/// The numbers as a bracketed list, "[1, 2, 3]".
pub open spec fn bracketed(s: Seq<usize>) -> Seq<char> {
    "["@ + joined(s) + "]"@
}

/// Why a segment definition is refused on an output, if it is.
pub open spec fn definition_error(caps: CapabilitiesView, output_id: Seq<char>, d: SegmentDefinition) -> Option<Seq<char>> {
    if !caps.allowed_segment_types.contains(d.segment_type) {
        Some("Segment type "@ + segment_type_label(d.segment_type) + " is not allowed on output '"@ + output_id + "'"@)
    } else {
        match d.segment_type {
            SegmentType::Single => if d.leds_count != 1 {
                Some("Single segment must have leds_count = 1"@)
            } else {
                None
            },
            SegmentType::Matrix => match d.matrix {
                None => Some("Matrix segment requires matrix map"@),
                Some(m) => if led_cells(m.map@) != d.leds_count {
                    Some("Matrix leds_count mismatch: leds_count="@ + decimal(d.leds_count as nat) + ", map_has_leds="@
                        + decimal(led_cells(m.map@)))
                } else {
                    None
                },
            },
            SegmentType::Linear => None,
        }
    }
}

/// The first refused segment definition's error, in order.
pub open spec fn first_definition_error(caps: CapabilitiesView, output_id: Seq<char>, defs: Seq<SegmentDefinition>) -> Option<Seq<char>>
    decreases defs.len(),
{
    if defs.len() == 0 {
        None
    } else {
        match definition_error(caps, output_id, defs[0]) {
            Some(e) => Some(e),
            None => first_definition_error(caps, output_id, defs.drop_first()),
        }
    }
}

/// Why a total LED count is refused on an output, if it is.
pub open spec fn total_error(out: OutputView, total: nat) -> Option<Seq<char>> {
    let caps = out.capabilities;
    if total != out.leds_count {
        Some("Segment total LED count "@ + decimal(total) + " must equal output leds_count "@ + decimal(out.leds_count as nat))
    } else if total < caps.min_total_leds || total > caps.max_total_leds {
        Some("Total LED count "@ + decimal(total) + " is outside allowed range "@ + decimal(caps.min_total_leds as nat)
            + "..="@ + decimal(caps.max_total_leds as nat))
    } else {
        match caps.allowed_total_leds {
            Some(a) => if a.len() > 0 && !a.contains(total as usize) {
                Some("Total LED count "@ + decimal(total) + " is not allowed (allowed: "@ + bracketed(a) + ")"@)
            } else {
                None
            },
            None => None,
        }
    }
}

/// The index of the last segment with id `id`, or -1.
pub open spec fn last_seg_index(segs: Seq<SegmentView>, id: Seq<char>) -> int
    decreases segs.len(),
{
    if segs.len() == 0 {
        -1
    } else if segs.last().id == id {
        segs.len() - 1
    } else {
        last_seg_index(segs.drop_last(), id)
    }
}

/// Whether the old segment state for definition `j`'s id is still there: some old
/// segment has the id, and no earlier definition took it.
pub open spec fn keeps_state(old: Seq<SegmentView>, defs: Seq<SegmentDefinition>, j: int) -> bool {
    &&& last_seg_index(old, defs[j].id@) >= 0
    &&& forall|i: int| 0 <= i < j ==> #[trigger] defs[i].id@ != defs[j].id@
}

/// The segment that definition `j` yields. It keeps the brightness and mode of the last
/// old segment with its id, unless an earlier definition took that id; a new segment
/// starts at full brightness, inheriting.
pub open spec fn rebuilt_segment(old: Seq<SegmentView>, defs: Seq<SegmentDefinition>, j: int) -> SegmentView {
    let d = defs[j];
    let keep = keeps_state(old, defs, j);
    let oi = last_seg_index(old, d.id@);
    SegmentView {
        id: d.id@,
        name: d.name@,
        segment_type: d.segment_type,
        leds_count: d.leds_count,
        matrix: opt_matrix_view(d.matrix),
        brightness: if keep { old[oi].brightness } else { 100 },
        mode: if keep { old[oi].mode } else { default_mode() },
    }
}

/// The segments that the definitions yield.
pub open spec fn rebuilt_segments(old: Seq<SegmentView>, defs: Seq<SegmentDefinition>) -> Seq<SegmentView> {
    Seq::new(defs.len(), |j: int| rebuilt_segment(old, defs, j))
}

proof fn lemma_last_seg_index(segs: Seq<SegmentView>, id: Seq<char>)
    ensures
        -1 <= last_seg_index(segs, id) < segs.len(),
        last_seg_index(segs, id) >= 0 ==> segs[last_seg_index(segs, id)].id == id,
        forall|j: int| last_seg_index(segs, id) < j < segs.len() ==> #[trigger] segs[j].id != id,
    decreases segs.len(),
{
    if segs.len() > 0 {
        let t = segs.drop_last();
        lemma_last_seg_index(t, id);
        assert(segs.last() == segs[segs.len() - 1]);
        if segs.last().id != id {
            assert forall|j: int| last_seg_index(segs, id) < j < segs.len() implies #[trigger] segs[j].id != id by {
                if j < segs.len() - 1 {
                    assert(segs[j] == t[j]);
                }
            }
            if last_seg_index(t, id) >= 0 {
                assert(segs[last_seg_index(t, id)] == t[last_seg_index(t, id)]);
            }
        }
    }
}

pub proof fn lemma_last_seg_index_at(segs: Seq<SegmentView>, id: Seq<char>, i: int)
    requires
        0 <= i < segs.len(),
        segs[i].id == id,
        forall|j: int| i < j < segs.len() ==> #[trigger] segs[j].id != id,
    ensures
        last_seg_index(segs, id) == i,
    decreases segs.len(),
{
    if i < segs.len() - 1 {
        let t = segs.drop_last();
        assert(segs.last() == segs[segs.len() - 1]);
        assert forall|j: int| i < j < t.len() implies #[trigger] t[j].id != id by {
            assert(t[j] == segs[j]);
        }
        assert(t[i] == segs[i]);
        lemma_last_seg_index_at(t, id, i);
    } else {
        assert(segs.last() == segs[i]);
    }
}

/// Counts the cells of a matrix map that hold an LED.
fn count_leds(map: &Vec<Option<usize>>) -> (n: usize)
    ensures
        n == led_cells(map@),
{
    let mut n: usize = 0;
    let mut i: usize = 0;
    while i < map.len()
        invariant
            i <= map@.len(),
            n == led_cells(map@.take(i as int)),
            n <= i,
        decreases map.len() - i,
    {
        proof {
            assert(map@.take(i + 1).drop_last() =~= map@.take(i as int));
        }
        if map[i].is_some() {
            n = n + 1;
        }
        i = i + 1;
    }
    proof {
        assert(map@.take(i as int) =~= map@);
    }
    n
}

/// Checks one segment definition against an output's capabilities.
fn check_definition(caps: &crate::layout::OutputCapabilities, output_id: &str, d: &SegmentDefinition) -> (r: Result<(), String>)
    ensures
        match definition_error(caps@, output_id@, *d) {
            Some(e) => r matches Err(x) && x@ == e,
            None => r is Ok,
        },
{
    let mut allowed = false;
    let mut i: usize = 0;
    while i < caps.allowed_segment_types.len()
        invariant
            i <= caps.allowed_segment_types@.len(),
            allowed == exists|b: int| 0 <= b < i && #[trigger] caps.allowed_segment_types@[b] == d.segment_type,
        decreases caps.allowed_segment_types.len() - i,
    {
        if caps.allowed_segment_types[i] == d.segment_type {
            allowed = true;
        }
        i = i + 1;
    }
    if !allowed {
        let mut m = owned("Segment type ");
        m.append(segment_type_str(d.segment_type));
        m.append(" is not allowed on output '");
        m.append(output_id);
        m.append("'");
        return Err(m);
    }
    match d.segment_type {
        SegmentType::Single => {
            if d.leds_count != 1 {
                return Err(owned("Single segment must have leds_count = 1"));
            }
        },
        SegmentType::Matrix => {
            match &d.matrix {
                None => {
                    return Err(owned("Matrix segment requires matrix map"));
                },
                Some(m) => {
                    let physical = count_leds(&m.map);
                    if physical != d.leds_count {
                        let mut msg = owned("Matrix leds_count mismatch: leds_count=");
                        append_decimal(&mut msg, d.leds_count);
                        msg.append(", map_has_leds=");
                        append_decimal(&mut msg, physical);
                        return Err(msg);
                    }
                },
            }
        },
        SegmentType::Linear => {},
    }
    Ok(())
}

/// Writes the numbers as a bracketed list.
fn bracketed_string(v: &Vec<usize>) -> (s: String)
    ensures
        s@ == bracketed(v@),
{
    let mut s = owned("[");
    let mut i: usize = 0;
    while i < v.len()
        invariant
            i <= v@.len(),
            s@ == "["@ + joined(v@.take(i as int)),
        decreases v.len() - i,
    {
        proof {
            assert(v@.take(i + 1).drop_last() =~= v@.take(i as int));
        }
        if i > 0 {
            s.append(", ");
        }
        append_decimal(&mut s, v[i]);
        proof {
            if i == 0 {
                assert(joined(v@.take(1)) == decimal(v@[0] as nat));
                assert(s@ =~= "["@ + joined(v@.take(i + 1)));
            } else {
                assert(s@ =~= "["@ + joined(v@.take(i + 1)));
            }
        }
        i = i + 1;
    }
    s.append("]");
    proof {
        assert(v@.take(i as int) =~= v@);
    }
    s
}

/// Replaces the segments of an output. Every definition must be allowed on the output
/// and the LED counts must add up to the output's; segments whose id was already there
/// keep their brightness and mode.
pub fn replace_segments_for_output(out: &mut OutputConfig, output_id: &str, segments: &Vec<SegmentDefinition>) -> (r: Result<(), String>)
    requires
        old(out).wf(),
        leds_total(segments@) <= usize::MAX,
    ensures
        final(out).wf(),
        match first_definition_error(old(out)@.capabilities, output_id@, segments@) {
            Some(e) => r matches Err(x) && x@ == e && final(out)@ == old(out)@,
            None => match total_error(old(out)@, leds_total(segments@)) {
                Some(e) => r matches Err(x) && x@ == e && final(out)@ == old(out)@,
                None => r is Ok && final(out)@ == old(out)@.with_segments(rebuilt_segments(old(out)@.segments, segments@)),
            },
        },
{
    assert(segments@.skip(0) =~= segments@);
    let mut i: usize = 0;
    while i < segments.len()
        invariant
            *out == *old(out),
            out.wf(),
            i <= segments@.len(),
            first_definition_error(out@.capabilities, output_id@, segments@) == first_definition_error(
                out@.capabilities,
                output_id@,
                segments@.skip(i as int),
            ),
        decreases segments.len() - i,
    {
        proof {
            assert(segments@.skip(i as int).drop_first() =~= segments@.skip(i + 1));
            assert(segments@.skip(i as int)[0] == segments@[i as int]);
        }
        check_definition(&out.capabilities, output_id, &segments[i])?;
        i = i + 1;
    }
    let mut total: usize = 0;
    let mut i: usize = 0;
    while i < segments.len()
        invariant
            *out == *old(out),
            i <= segments@.len(),
            total == leds_total(segments@.take(i as int)),
            leds_total(segments@) <= usize::MAX,
        decreases segments.len() - i,
    {
        proof {
            assert(segments@.take(i + 1).drop_last() =~= segments@.take(i as int));
            lemma_leds_total_prefix(segments@, i + 1);
        }
        total = total + segments[i].leds_count;
        i = i + 1;
    }
    proof {
        assert(segments@.take(i as int) =~= segments@);
    }
    if total != out.leds_count {
        let mut m = owned("Segment total LED count ");
        append_decimal(&mut m, total);
        m.append(" must equal output leds_count ");
        append_decimal(&mut m, out.leds_count);
        return Err(m);
    }
    if total < out.capabilities.min_total_leds || total > out.capabilities.max_total_leds {
        let mut m = owned("Total LED count ");
        append_decimal(&mut m, total);
        m.append(" is outside allowed range ");
        append_decimal(&mut m, out.capabilities.min_total_leds);
        m.append("..=");
        append_decimal(&mut m, out.capabilities.max_total_leds);
        return Err(m);
    }
    if let Some(allowed) = &out.capabilities.allowed_total_leds {
        if allowed.len() > 0 {
            let mut found = false;
            let mut i: usize = 0;
            while i < allowed.len()
                invariant
                    i <= allowed@.len(),
                    found == exists|b: int| 0 <= b < i && #[trigger] allowed@[b] == total,
                decreases allowed.len() - i,
            {
                if allowed[i] == total {
                    found = true;
                }
                i = i + 1;
            }
            if !found {
                let mut m = owned("Total LED count ");
                append_decimal(&mut m, total);
                m.append(" is not allowed (allowed: ");
                let list = bracketed_string(allowed);
                m.append(list.as_str());
                m.append(")");
                return Err(m);
            }
        }
    }
    let new_segments = rebuild_segments(&out.segments, segments);
    let ghost start = *out;
    out.segments = new_segments;
    proof {
        assert(out@ =~~= start@.with_segments(rebuilt_segments(start@.segments, segments@)));
    }
    Ok(())
}

proof fn lemma_leds_total_prefix(defs: Seq<SegmentDefinition>, n: int)
    requires
        0 <= n <= defs.len(),
    ensures
        leds_total(defs.take(n)) <= leds_total(defs),
    decreases defs.len() - n,
{
    if n < defs.len() {
        lemma_leds_total_prefix(defs, n + 1);
        assert(defs.take(n + 1).drop_last() =~= defs.take(n));
    } else {
        assert(defs.take(n) =~= defs);
    }
}

/// Builds the new segment list, carrying over state by id.
fn rebuild_segments(old: &Vec<SegmentConfig>, defs: &Vec<SegmentDefinition>) -> (r: Vec<SegmentConfig>)
    requires
        forall|j: int| 0 <= j < old@.len() ==> (#[trigger] old@[j]).wf(),
    ensures
        segment_views(r@) == rebuilt_segments(segment_views(old@), defs@),
        forall|j: int| 0 <= j < r@.len() ==> (#[trigger] r@[j]).wf(),
{
    let ghost ov = segment_views(old@);
    let mut out: Vec<SegmentConfig> = Vec::new();
    let mut j: usize = 0;
    while j < defs.len()
        invariant
            j <= defs@.len(),
            ov == segment_views(old@),
            forall|a: int| 0 <= a < old@.len() ==> (#[trigger] old@[a]).wf(),
            out@.len() == j,
            forall|a: int| 0 <= a < j ==> (#[trigger] out@[a])@ == rebuilt_segment(ov, defs@, a) && out@[a].wf(),
        decreases defs.len() - j,
    {
        let d = &defs[j];
        let mut taken = false;
        let mut a: usize = 0;
        while a < j
            invariant
                a <= j,
                j < defs@.len(),
                d == defs@[j as int],
                taken == exists|b: int| 0 <= b < a && #[trigger] defs@[b].id@ == d.id@,
            decreases j - a,
        {
            if str_equal(defs[a].id.as_str(), d.id.as_str()) {
                taken = true;
            }
            a = a + 1;
        }
        let mut found: Option<usize> = None;
        if !taken {
            proof {
                lemma_last_seg_index(ov, d.id@);
            }
            let mut b = old.len();
            while b > 0 && found.is_none()
                invariant
                    b <= old@.len(),
                    ov == segment_views(old@),
                    found is None ==> forall|c: int| b <= c < old@.len() ==> #[trigger] ov[c].id != d.id@,
                    found matches Some(x) ==> x < old@.len() && last_seg_index(ov, d.id@) == x,
                decreases b,
            {
                if str_equal(old[b - 1].id.as_str(), d.id.as_str()) {
                    proof {
                        lemma_last_seg_index_at(ov, d.id@, b - 1);
                    }
                    found = Some(b - 1);
                }
                b = b - 1;
            }
            proof {
                if found is None {
                    lemma_last_seg_index(ov, d.id@);
                    if last_seg_index(ov, d.id@) >= 0 {
                        assert(ov[last_seg_index(ov, d.id@)].id == d.id@);
                    }
                }
            }
        }
        let seg = match found {
            Some(b) => {
                proof {
                    assert(old@[b as int].wf());
                }
                SegmentConfig {
                    id: d.id.clone(),
                    name: d.name.clone(),
                    segment_type: d.segment_type,
                    leds_count: d.leds_count,
                    matrix: duplicate_opt_matrix(&d.matrix),
                    brightness: old[b].brightness,
                    mode: old[b].mode.duplicate(),
                }
            },
            None => SegmentConfig {
                id: d.id.clone(),
                name: d.name.clone(),
                segment_type: d.segment_type,
                leds_count: d.leds_count,
                matrix: duplicate_opt_matrix(&d.matrix),
                brightness: 100,
                mode: ModeConfig::new(),
            },
        };
        proof {
            assert(keeps_state(ov, defs@, j as int) == (found is Some));
            assert(seg@ =~~= rebuilt_segment(ov, defs@, j as int));
        }
        out.push(seg);
        j = j + 1;
    }
    proof {
        assert(segment_views(out@) =~~= rebuilt_segments(ov, defs@));
    }
    out
}


/// The message for a missing output.
pub open spec fn output_missing(id: Seq<char>) -> Seq<char> {
    "Output '"@ + id + "' not found"@
}

/// What replacing the segments of output `output_id` yields, or the error it is
/// refused with.
pub open spec fn set_segments_outcome(
    d: DeviceView,
    output_id: Seq<char>,
    defs: Seq<SegmentDefinition>,
    r: Result<(), String>,
    d2: DeviceView,
) -> bool {
    let i = out_index(d.outputs, output_id);
    if i < 0 {
        r matches Err(e) && e@ == output_missing(output_id) && d2 == d
    } else {
        let o = d.outputs[i];
        if o.output_type != SegmentType::Linear {
            r matches Err(e) && e@ == "Output '"@ + output_id + "' is "@ + segment_type_label(o.output_type)
                + "; segments are only supported for Linear outputs"@ && d2 == d
        } else if !o.capabilities.editable {
            r matches Err(e) && e@ == "Output '"@ + output_id + "' is not editable"@ && d2 == d
        } else {
            match first_definition_error(o.capabilities, output_id, defs) {
                Some(e) => r matches Err(x) && x@ == e && d2 == d,
                None => match total_error(o, leds_total(defs)) {
                    Some(e) => r matches Err(x) && x@ == e && d2 == d,
                    None => r is Ok && d2 == DeviceView {
                        brightness: d.brightness,
                        mode: d.mode,
                        outputs: d.outputs.update(i, o.with_segments(rebuilt_segments(o.segments, defs))),
                    },
                },
            }
        }
    }
}

/// Replaces the segments of a linear, editable output.
pub fn set_output_segments(cfg: &mut DeviceConfig, output_id: &str, segments: &Vec<SegmentDefinition>) -> (r: Result<(), String>)
    requires
        old(cfg).wf(),
        leds_total(segments@) <= usize::MAX,
    ensures
        final(cfg).wf(),
        set_segments_outcome(old(cfg)@, output_id@, segments@, r, final(cfg)@),
{
    let i = match cfg.output(output_id) {
        Some(i) => i,
        None => return Err(concat3("Output '", output_id, "' not found")),
    };
    proof {
        lemma_out_index(cfg@.outputs, output_id@);
    }
    if cfg.outputs[i].output_type != SegmentType::Linear {
        let mut m = concat3("Output '", output_id, "' is ");
        m.append(segment_type_str(cfg.outputs[i].output_type));
        m.append("; segments are only supported for Linear outputs");
        return Err(m);
    }
    if !cfg.outputs[i].capabilities.editable {
        return Err(concat3("Output '", output_id, "' is not editable"));
    }
    let ghost start = *cfg;
    proof {
        assert(cfg.outputs@[i as int].wf());
    }
    let r = replace_segments_for_output(&mut cfg.outputs[i], output_id, segments);
    proof {
        assert forall|a: int| 0 <= a < cfg.outputs@.len() && a != i implies #[trigger] cfg.outputs@[a] == start.outputs@[a] by {}
        assert(cfg.wf()) by {
            assert forall|a: int| 0 <= a < cfg.outputs@.len() implies (#[trigger] cfg.outputs@[a]).wf() by {
                if a != i {
                    assert(start.outputs@[a].wf());
                }
            }
        }
        if r is Ok {
            assert(cfg@ =~~= DeviceView {
                brightness: start@.brightness,
                mode: start@.mode,
                outputs: start@.outputs.update(
                    i as int,
                    start@.outputs[i as int].with_segments(rebuilt_segments(start@.outputs[i as int].segments, segments@)),
                ),
            });
        } else {
            assert(cfg@ =~~= start@);
        }
    }
    r
}

/// The sum of the LED counts of the segments.
pub open spec fn seg_leds_total(segs: Seq<SegmentView>) -> nat
    decreases segs.len(),
{
    if segs.len() == 0 {
        0
    } else {
        seg_leds_total(segs.drop_last()) + segs.last().leds_count as nat
    }
}

/// Whether the segments' LED counts add up to `n`.
pub fn segments_cover(segments: &Vec<SegmentConfig>, n: usize) -> (b: bool)
    ensures
        b == (seg_leds_total(segment_views(segments@)) == n),
{
    let ghost v = segment_views(segments@);
    let mut total: u128 = 0;
    let mut i: usize = 0;
    while i < segments.len()
        invariant
            i <= segments@.len(),
            v == segment_views(segments@),
            total == seg_leds_total(v.take(i as int)),
            total <= i * 0xffff_ffff_ffff_ffffnat,
        decreases segments.len() - i,
    {
        proof {
            assert(v.take(i + 1).drop_last() =~= v.take(i as int));
            assert(v[i as int].leds_count <= 0xffff_ffff_ffff_ffffnat);
            assert(i + 1 <= 0xffff_ffff_ffff_ffffnat);
            assert((i + 1) * 0xffff_ffff_ffff_ffffnat <= 0xffff_ffff_ffff_ffffnat * 0xffff_ffff_ffff_ffffnat) by (nonlinear_arith)
                requires
                    i + 1 <= 0xffff_ffff_ffff_ffffnat,
            ;
        }
        total = total + segments[i].leds_count as u128;
        i = i + 1;
    }
    proof {
        assert(v.take(i as int) =~= v);
    }
    total == n as u128
}

/// The output configuration that a driver's output definition starts as.
pub open spec fn fresh_output(def: OutputPortDefinition) -> OutputView {
    OutputView {
        id: def.id@,
        name: def.name@,
        output_type: def.output_type,
        leds_count: if def.leds_count == 0 { 1 } else { def.leds_count },
        matrix: opt_matrix_view(def.matrix),
        capabilities: def.capabilities@,
        brightness: 100,
        mode: default_mode(),
        segments: Seq::empty(),
    }
}

/// A device configuration built from a driver's output definitions: full brightness,
/// every scope inheriting, no segments.
pub fn from_output_defs(defs: &Vec<OutputPortDefinition>) -> (cfg: DeviceConfig)
    ensures
        cfg.wf(),
        cfg@.brightness == 100,
        cfg@.mode == default_mode(),
        cfg@.outputs == Seq::new(defs@.len(), |i: int| fresh_output(defs@[i])),
{
    let mut outputs: Vec<OutputConfig> = Vec::new();
    let mut i: usize = 0;
    while i < defs.len()
        invariant
            i <= defs@.len(),
            outputs@.len() == i,
            forall|a: int| 0 <= a < i ==> (#[trigger] outputs@[a])@ == fresh_output(defs@[a]) && outputs@[a].wf(),
        decreases defs.len() - i,
    {
        let o = fresh_output_config(&defs[i]);
        outputs.push(o);
        i = i + 1;
    }
    let cfg = DeviceConfig { brightness: 100, mode: ModeConfig::new(), outputs };
    proof {
        assert(cfg@.outputs =~~= Seq::new(defs@.len(), |i: int| fresh_output(defs@[i])));
    }
    cfg
}

fn fresh_output_config(def: &OutputPortDefinition) -> (o: OutputConfig)
    ensures
        o@ == fresh_output(*def),
        o.wf(),
{
    let o = OutputConfig {
        id: def.id.clone(),
        name: def.name.clone(),
        output_type: def.output_type,
        leds_count: if def.leds_count == 0 { 1 } else { def.leds_count },
        matrix: duplicate_opt_matrix(&def.matrix),
        capabilities: def.capabilities.duplicate(),
        brightness: 100,
        mode: ModeConfig::new(),
        segments: Vec::new(),
    };
    proof {
        assert(o@ =~~= fresh_output(*def));
    }
    o
}

/// Whether output definition `j` carries over the state of an existing output: one
/// has its id, and no earlier definition took it.
pub open spec fn keeps_output(old: Seq<OutputView>, defs: Seq<OutputPortDefinition>, j: int) -> bool {
    &&& out_index(old, defs[j].id@) >= 0
    &&& forall|i: int| 0 <= i < j ==> #[trigger] defs[i].id@ != defs[j].id@
}

/// The output that definition `j` yields when a device's definitions are synced: the
/// driver's description with the brightness, mode and segments of the last existing
/// output with that id (segments only while the output stays linear and they still
/// cover its LEDs), unless an earlier definition took that id.
pub open spec fn synced_output(old: Seq<OutputView>, defs: Seq<OutputPortDefinition>, j: int) -> OutputView {
    let f = fresh_output(defs[j]);
    if keeps_output(old, defs, j) {
        let o = old[out_index(old, defs[j].id@)];
        let keep_segments = f.output_type == SegmentType::Linear && seg_leds_total(o.segments) == f.leds_count;
        OutputView {
            id: o.id,
            name: f.name,
            output_type: f.output_type,
            leds_count: f.leds_count,
            matrix: f.matrix,
            capabilities: f.capabilities,
            brightness: o.brightness,
            mode: o.mode,
            segments: if keep_segments { o.segments } else { Seq::empty() },
        }
    } else {
        f
    }
}

/// Brings a device configuration in line with the driver's current output definitions,
/// keeping what the user set on outputs that are still there.
pub fn sync_with_output_defs(cfg: &mut DeviceConfig, defs: &Vec<OutputPortDefinition>)
    requires
        old(cfg).wf(),
    ensures
        final(cfg).wf(),
        final(cfg)@.brightness == old(cfg)@.brightness,
        final(cfg)@.mode == old(cfg)@.mode,
        final(cfg)@.outputs == Seq::new(defs@.len(), |j: int| synced_output(old(cfg)@.outputs, defs@, j)),
{
    let ghost ov = cfg@.outputs;
    let mut outputs: Vec<OutputConfig> = Vec::new();
    let mut j: usize = 0;
    while j < defs.len()
        invariant
            cfg.wf(),
            ov == cfg@.outputs,
            j <= defs@.len(),
            outputs@.len() == j,
            forall|a: int| 0 <= a < j ==> (#[trigger] outputs@[a])@ == synced_output(ov, defs@, a) && outputs@[a].wf(),
        decreases defs.len() - j,
    {
        let def = &defs[j];
        let mut taken = false;
        let mut a: usize = 0;
        while a < j
            invariant
                a <= j,
                j < defs@.len(),
                def == defs@[j as int],
                taken == exists|b: int| 0 <= b < a && #[trigger] defs@[b].id@ == def.id@,
            decreases j - a,
        {
            if str_equal(defs[a].id.as_str(), def.id.as_str()) {
                taken = true;
            }
            a = a + 1;
        }
        let found = if taken {
            None
        } else {
            cfg.output(def.id.as_str())
        };
        proof {
            lemma_out_index(ov, def.id@);
            assert(keeps_output(ov, defs@, j as int) == (found is Some));
        }
        let out = match found {
            Some(i) => {
                proof {
                    assert(cfg.outputs@[i as int].wf());
                }
                let o = &cfg.outputs[i];
                let f = fresh_output_config(def);
                let keep = f.output_type == SegmentType::Linear && segments_cover(&o.segments, f.leds_count);
                let segments = if keep {
                    copy_segments(&o.segments)
                } else {
                    Vec::new()
                };
                let n = OutputConfig {
                    id: o.id.clone(),
                    name: f.name,
                    output_type: f.output_type,
                    leds_count: f.leds_count,
                    matrix: f.matrix,
                    capabilities: f.capabilities,
                    brightness: o.brightness,
                    mode: o.mode.duplicate(),
                    segments,
                };
                proof {
                    assert(n@ =~~= synced_output(ov, defs@, j as int));
                }
                n
            },
            None => fresh_output_config(def),
        };
        outputs.push(out);
        j = j + 1;
    }
    cfg.outputs = outputs;
    proof {
        assert(cfg@.outputs =~~= Seq::new(defs@.len(), |j: int| synced_output(ov, defs@, j)));
    }
}

/// A copy of a list of segments.
fn copy_segments(segs: &Vec<SegmentConfig>) -> (r: Vec<SegmentConfig>)
    requires
        forall|j: int| 0 <= j < segs@.len() ==> (#[trigger] segs@[j]).wf(),
    ensures
        segment_views(r@) == segment_views(segs@),
        forall|j: int| 0 <= j < r@.len() ==> (#[trigger] r@[j]).wf(),
{
    let mut r: Vec<SegmentConfig> = Vec::new();
    let mut j: usize = 0;
    while j < segs.len()
        invariant
            j <= segs@.len(),
            forall|a: int| 0 <= a < segs@.len() ==> (#[trigger] segs@[a]).wf(),
            r@.len() == j,
            forall|a: int| 0 <= a < j ==> (#[trigger] r@[a])@ == segs@[a]@ && r@[a].wf(),
        decreases segs.len() - j,
    {
        let s = &segs[j];
        proof {
            assert(segs@[j as int].wf());
        }
        let c = SegmentConfig {
            id: s.id.clone(),
            name: s.name.clone(),
            segment_type: s.segment_type,
            leds_count: s.leds_count,
            matrix: duplicate_opt_matrix(&s.matrix),
            brightness: s.brightness,
            mode: s.mode.duplicate(),
        };
        proof {
            assert(c@ =~~= s@);
        }
        r.push(c);
        j = j + 1;
    }
    proof {
        assert(segment_views(r@) =~~= segment_views(segs@));
    }
    r
}


impl OutputConfig {
    /// A copy of this output configuration.
    pub fn duplicate(&self) -> (r: OutputConfig)
        requires
            self.wf(),
        ensures
            r@ == self@,
            r.wf(),
    {
        let r = OutputConfig {
            id: self.id.clone(),
            name: self.name.clone(),
            output_type: self.output_type,
            leds_count: self.leds_count,
            matrix: duplicate_opt_matrix(&self.matrix),
            capabilities: self.capabilities.duplicate(),
            brightness: self.brightness,
            mode: self.mode.duplicate(),
            segments: copy_segments(&self.segments),
        };
        proof {
            assert(r@ =~~= self@);
        }
        r
    }
}

impl DeviceConfig {
    /// A copy of this configuration.
    pub fn duplicate(&self) -> (r: DeviceConfig)
        requires
            self.wf(),
        ensures
            r@ == self@,
            r.wf(),
    {
        let mut outputs: Vec<OutputConfig> = Vec::new();
        let mut i: usize = 0;
        while i < self.outputs.len()
            invariant
                self.wf(),
                i <= self.outputs@.len(),
                outputs@.len() == i,
                forall|a: int| 0 <= a < i ==> (#[trigger] outputs@[a])@ == self.outputs@[a]@ && outputs@[a].wf(),
            decreases self.outputs.len() - i,
        {
            proof {
                assert(self.outputs@[i as int].wf());
            }
            outputs.push(self.outputs[i].duplicate());
            i = i + 1;
        }
        let r = DeviceConfig { brightness: self.brightness, mode: self.mode.duplicate(), outputs };
        proof {
            assert(r@ =~~= self@);
        }
        r
    }
}

} // verus!
