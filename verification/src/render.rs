//! Planning one frame of a device's render loop: which targets render which effect,
//! where their LEDs sit in the device's physical order, and how a target's virtual
//! buffer maps onto them.
use vstd::prelude::*;
use crate::layout::{Color, MatrixMap, MatrixView, SegmentType, black, duplicate_opt_matrix, opt_matrix_view};
use crate::params::EffectCatalog;
use crate::scope::{DeviceConfig, OutputView, ResolvedEffect, Scope, resolve_effect_for_scope, resolved_effect_is};
use crate::segments::{seg_leds_total, segments_cover};
use crate::switching::{SwitchTarget, target_scope};
use crate::text::str_equal;

verus! {

/// `a + b`, saturating at `usize::MAX`.
pub open spec fn sat_add(a: usize, b: usize) -> usize {
    if a + b > usize::MAX { usize::MAX } else { (a + b) as usize }
}

/// At least one.
pub open spec fn at_least_one(n: usize) -> usize {
    if n == 0 { 1 } else { n }
}

/// One render target of a frame.
#[derive(Debug)]
pub struct TargetTask {
    pub key: SwitchTarget,
    pub layout_type: SegmentType,
    pub leds_count: usize,
    pub matrix: Option<MatrixMap>,
    pub physical_offset: usize,
    pub resolved: Option<ResolvedEffect>,
}

/// What a render target is, without its effect.
pub struct TaskView {
    pub key: (Seq<char>, Option<Seq<char>>),
    pub layout_type: SegmentType,
    pub leds_count: usize,
    pub matrix: Option<MatrixView>,
    pub physical_offset: usize,
}

/// Whether an output renders segment by segment: linear, with segments whose LED
/// counts add up to the output's.
pub open spec fn renders_segments(o: OutputView) -> bool {
    o.output_type == SegmentType::Linear && o.segments.len() > 0 && seg_leds_total(o.segments) == at_least_one(o.leds_count)
}

/// The offset after the segments `0..j` of an output that starts at `offset`.
pub open spec fn segments_end(o: OutputView, offset: usize, j: int) -> usize
    decreases j,
{
    if j <= 0 {
        offset
    } else {
        sat_add(segments_end(o, offset, j - 1), at_least_one(o.segments[j - 1].leds_count))
    }
}

/// The targets of one output starting at `offset`.
pub open spec fn output_tasks(o: OutputView, offset: usize) -> Seq<TaskView> {
    if renders_segments(o) {
        Seq::new(o.segments.len(), |j: int| TaskView {
            key: (o.id, Some(o.segments[j].id)),
            layout_type: o.segments[j].segment_type,
            leds_count: at_least_one(o.segments[j].leds_count),
            matrix: o.segments[j].matrix,
            physical_offset: segments_end(o, offset, j),
        })
    } else {
        seq![TaskView {
            key: (o.id, None::<Seq<char>>),
            layout_type: o.output_type,
            leds_count: at_least_one(o.leds_count),
            matrix: o.matrix,
            physical_offset: offset,
        }]
    }
}

/// The offset after one output starting at `offset`.
pub open spec fn output_end(o: OutputView, offset: usize) -> usize {
    if renders_segments(o) {
        segments_end(o, offset, o.segments.len() as int)
    } else {
        sat_add(offset, at_least_one(o.leds_count))
    }
}

/// The offset after the outputs.
pub open spec fn outputs_end(outs: Seq<OutputView>) -> usize
    decreases outs.len(),
{
    if outs.len() == 0 {
        0
    } else {
        output_end(outs.last(), outputs_end(outs.drop_last()))
    }
}

/// The targets of the outputs, in order, each at its physical offset.
pub open spec fn planned_tasks(outs: Seq<OutputView>) -> Seq<TaskView>
    decreases outs.len(),
{
    if outs.len() == 0 {
        Seq::empty()
    } else {
        planned_tasks(outs.drop_last()) + output_tasks(outs.last(), outputs_end(outs.drop_last()))
    }
}

impl TargetTask {
    pub open spec fn task_view(&self) -> TaskView {
        TaskView {
            key: self.key@,
            layout_type: self.layout_type,
            leds_count: self.leds_count,
            matrix: opt_matrix_view(self.matrix),
            physical_offset: self.physical_offset,
        }
    }
}

/// The views of a list of tasks.
pub open spec fn task_views(s: Seq<TargetTask>) -> Seq<TaskView> {
    Seq::new(s.len(), |i: int| s[i].task_view())
}

/// Appends the targets of one output.
fn push_output_tasks(
    cfg: &DeviceConfig,
    i: usize,
    port: &str,
    catalog: &EffectCatalog,
    offset: usize,
    tasks: &mut Vec<TargetTask>,
) -> (end: usize)
    requires
        cfg.wf(),
        catalog.wf(),
        i < cfg.outputs@.len(),
        forall|a: int| 0 <= a < old(tasks)@.len() ==> resolved_effect_is(
            (#[trigger] old(tasks)@[a]).resolved,
            cfg@,
            port@,
            target_scope(old(tasks)@[a].key@),
            *catalog,
        ),
    ensures
        task_views(final(tasks)@) == task_views(old(tasks)@) + output_tasks(cfg@.outputs[i as int], offset),
        end == output_end(cfg@.outputs[i as int], offset),
        forall|a: int| 0 <= a < final(tasks)@.len() ==> resolved_effect_is(
            (#[trigger] final(tasks)@[a]).resolved,
            cfg@,
            port@,
            target_scope(final(tasks)@[a].key@),
            *catalog,
        ),
{
    let out = &cfg.outputs[i];
    let ghost o = cfg@.outputs[i as int];
    let ghost start = task_views(tasks@);
    let out_len = if out.leds_count == 0 { 1 } else { out.leds_count };
    let per_segment = out.output_type == SegmentType::Linear && out.segments.len() > 0 && segments_cover(&out.segments, out_len);
    if per_segment {
        let mut off = offset;
        let mut j: usize = 0;
        while j < out.segments.len()
            invariant
                cfg.wf(),
                catalog.wf(),
                i < cfg.outputs@.len(),
                out == cfg.outputs@[i as int],
                o == cfg@.outputs[i as int],
                renders_segments(o),
                j <= out.segments@.len(),
                off == segments_end(o, offset, j as int),
                task_views(tasks@) == start + output_tasks(o, offset).take(j as int),
                forall|a: int| 0 <= a < tasks@.len() ==> resolved_effect_is(
                    (#[trigger] tasks@[a]).resolved,
                    cfg@,
                    port@,
                    target_scope(tasks@[a].key@),
                    *catalog,
                ),
            decreases out.segments.len() - j,
        {
            let seg = &out.segments[j];
            let key = SwitchTarget { output_id: out.id.clone(), segment_id: Some(seg.id.clone()) };
            let scope = Scope::Segment { output_id: out.id.clone(), segment_id: seg.id.clone() };
            let resolved = resolve_effect_for_scope(cfg, port, &scope, catalog);
            let leds = if seg.leds_count == 0 { 1 } else { seg.leds_count };
            let task = TargetTask {
                key,
                layout_type: seg.segment_type,
                leds_count: leds,
                matrix: duplicate_opt_matrix(&seg.matrix),
                physical_offset: off,
                resolved,
            };
            let ghost tv = task_views(tasks@);
            let ghost before = tasks@;
            tasks.push(task);
            proof {
                let ot = output_tasks(o, offset);
                assert(o.segments[j as int] == out.segments@[j as int]@);
                assert(ot[j as int] =~~= task.task_view());
                assert(task_views(tasks@) =~= tv.push(ot[j as int]));
                assert(ot.take(j + 1) =~= ot.take(j as int).push(ot[j as int]));
                assert(task_views(tasks@) =~= start + ot.take(j + 1));
                assert forall|a: int| 0 <= a < tasks@.len() implies resolved_effect_is(
                    (#[trigger] tasks@[a]).resolved,
                    cfg@,
                    port@,
                    target_scope(tasks@[a].key@),
                    *catalog,
                ) by {
                    if a < before.len() {
                        assert(tasks@[a] == before[a]);
                    }
                }
            }
            off = if off > usize::MAX - leds { usize::MAX } else { off + leds };
            j = j + 1;
        }
        proof {
            assert(output_tasks(o, offset).take(j as int) =~= output_tasks(o, offset));
        }
        off
    } else {
        let key = SwitchTarget { output_id: out.id.clone(), segment_id: None };
        let scope = Scope::Output { output_id: out.id.clone() };
        let resolved = resolve_effect_for_scope(cfg, port, &scope, catalog);
        let task = TargetTask {
            key,
            layout_type: out.output_type,
            leds_count: out_len,
            matrix: duplicate_opt_matrix(&out.matrix),
            physical_offset: offset,
            resolved,
        };
        let ghost before = tasks@;
        tasks.push(task);
        proof {
            assert(task_views(tasks@) =~= start + output_tasks(o, offset));
            assert forall|a: int| 0 <= a < tasks@.len() implies resolved_effect_is(
                (#[trigger] tasks@[a]).resolved,
                cfg@,
                port@,
                target_scope(tasks@[a].key@),
                *catalog,
            ) by {
                if a < before.len() {
                    assert(tasks@[a] == before[a]);
                }
            }
        }
        if offset > usize::MAX - out_len { usize::MAX } else { offset + out_len }
    }
}

/// The targets of one frame, in physical order, with the effect each runs, and the
/// device's total LED count.
pub fn plan_render_tasks(cfg: &DeviceConfig, port: &str, catalog: &EffectCatalog) -> (r: (Vec<TargetTask>, usize))
    requires
        cfg.wf(),
        catalog.wf(),
    ensures
        task_views(r.0@) == planned_tasks(cfg@.outputs),
        r.1 == outputs_end(cfg@.outputs),
        forall|a: int| 0 <= a < r.0@.len() ==> resolved_effect_is(
            (#[trigger] r.0@[a]).resolved,
            cfg@,
            port@,
            target_scope(r.0@[a].key@),
            *catalog,
        ),
{
    let mut tasks: Vec<TargetTask> = Vec::new();
    let mut offset: usize = 0;
    let mut i: usize = 0;
    while i < cfg.outputs.len()
        invariant
            cfg.wf(),
            catalog.wf(),
            i <= cfg.outputs@.len(),
            task_views(tasks@) == planned_tasks(cfg@.outputs.take(i as int)),
            offset == outputs_end(cfg@.outputs.take(i as int)),
            forall|a: int| 0 <= a < tasks@.len() ==> resolved_effect_is(
                (#[trigger] tasks@[a]).resolved,
                cfg@,
                port@,
                target_scope(tasks@[a].key@),
                *catalog,
            ),
        decreases cfg.outputs.len() - i,
    {
        proof {
            let t = cfg@.outputs.take(i + 1);
            assert(t.drop_last() =~= cfg@.outputs.take(i as int));
            assert(t.last() == cfg@.outputs[i as int]);
        }
        offset = push_output_tasks(cfg, i, port, catalog, offset, &mut tasks);
        i = i + 1;
    }
    proof {
        assert(cfg@.outputs.take(i as int) =~= cfg@.outputs);
    }
    (tasks, offset)
}

/// The virtual width and height an effect renders for a target.
pub open spec fn virtual_layout(segment_type: SegmentType, leds_count: usize, matrix: Option<MatrixView>) -> (usize, usize) {
    match segment_type {
        SegmentType::Single => (1, 1),
        SegmentType::Linear => (at_least_one(leds_count), 1),
        SegmentType::Matrix => match matrix {
            Some(m) => (at_least_one(m.width), at_least_one(m.height)),
            None => (at_least_one(leds_count), 1),
        },
    }
}

/// The virtual width and height an effect renders for a target: a single LED is 1x1, a
/// strip is a row, a matrix has its map's size (a matrix without map falls back to a row).
pub fn virtual_layout_for_segment(segment_type: SegmentType, leds_count: usize, matrix: &Option<MatrixMap>) -> (r: (usize, usize))
    ensures
        r == virtual_layout(segment_type, leds_count, opt_matrix_view(*matrix)),
{
    match segment_type {
        SegmentType::Single => (1, 1),
        SegmentType::Linear => (if leds_count == 0 { 1 } else { leds_count }, 1),
        SegmentType::Matrix => match matrix {
            Some(m) => (if m.width == 0 { 1 } else { m.width }, if m.height == 0 { 1 } else { m.height }),
            None => (if leds_count == 0 { 1 } else { leds_count }, 1),
        },
    }
}

/// The length of a render buffer of `width` x `height` pixels: the product, at least
/// one (and one where the product overflows).
pub fn render_len(width: usize, height: usize) -> (n: usize)
    ensures
        n == (if width * height > usize::MAX || width * height == 0 { 1 } else { width * height }),
{
    match width.checked_mul(height) {
        Some(p) => if p == 0 { 1 } else { p },
        None => 1,
    }
}

/// The physical position a virtual pixel lands on, if any.
pub open spec fn physical_target(
    v: int,
    segment_type: SegmentType,
    leds_count: usize,
    matrix: Option<MatrixView>,
    virtual_len: int,
    offset: usize,
    physical_len: int,
) -> Option<int> {
    match segment_type {
        SegmentType::Single => if v == 0 && virtual_len > 0 && offset < physical_len { Some(offset as int) } else { None },
        SegmentType::Matrix if matrix is Some => {
            let m = matrix->0;
            if 0 <= v < m.map.len() && v < virtual_len && m.map[v] is Some && (m.map[v]->0) < leds_count
                && sat_add(offset, m.map[v]->0) < physical_len {
                Some(sat_add(offset, m.map[v]->0) as int)
            } else {
                None
            }
        },
        _ => if 0 <= v < leds_count && v < virtual_len && offset + v < physical_len { Some(offset + v) } else { None },
    }
}

/// The last virtual pixel below `n` that lands on physical position `p`, or -1.
pub open spec fn last_writer(
    n: int,
    p: int,
    segment_type: SegmentType,
    leds_count: usize,
    matrix: Option<MatrixView>,
    virtual_len: int,
    offset: usize,
    physical_len: int,
) -> int
    decreases n,
{
    if n <= 0 {
        -1
    } else if physical_target(n - 1, segment_type, leds_count, matrix, virtual_len, offset, physical_len) == Some(p) {
        n - 1
    } else {
        last_writer(n - 1, p, segment_type, leds_count, matrix, virtual_len, offset, physical_len)
    }
}

/// A physical buffer `out` with a target's virtual buffer `vb` copied onto it.
pub open spec fn mapped_into(
    vb: Seq<Color>,
    segment_type: SegmentType,
    leds_count: usize,
    matrix: Option<MatrixView>,
    offset: usize,
    out: Seq<Color>,
) -> Seq<Color> {
    Seq::new(out.len(), |p: int| {
        let w = last_writer(vb.len() as int, p, segment_type, leds_count, matrix, vb.len() as int, offset, out.len() as int);
        if w >= 0 { vb[w] } else { out[p] }
    })
}

proof fn lemma_single_writer(n: int, p: int, leds_count: usize, matrix: Option<MatrixView>, vl: int, offset: usize, pl: int)
    requires
        vl > 0,
        offset < pl,
        0 <= n,
    ensures
        last_writer(n, p, SegmentType::Single, leds_count, matrix, vl, offset, pl) == (if n > 0 && p == offset { 0 } else { -1 }),
    decreases n,
{
    if n > 0 {
        lemma_single_writer(n - 1, p, leds_count, matrix, vl, offset, pl);
    }
}

proof fn lemma_linear_writer(n: int, p: int, leds_count: usize, vl: int, offset: usize, pl: int)
    requires
        0 <= n,
    ensures
        last_writer(n, p, SegmentType::Linear, leds_count, None, vl, offset, pl) == (if offset <= p < pl && p - offset < n
            && p - offset < leds_count && p - offset < vl {
            p - offset
        } else {
            -1
        }),
    decreases n,
{
    if n > 0 {
        lemma_linear_writer(n - 1, p, leds_count, vl, offset, pl);
    }
}

/// A single-LED target lights the LED at its offset with its first virtual pixel and
/// leaves every other LED as it was.
pub proof fn law_single_target_takes_first_pixel(
    vb: Seq<Color>,
    leds_count: usize,
    matrix: Option<MatrixView>,
    offset: usize,
    out: Seq<Color>,
)
    requires
        vb.len() > 0,
        offset < out.len(),
    ensures
        mapped_into(vb, SegmentType::Single, leds_count, matrix, offset, out).len() == out.len(),
        mapped_into(vb, SegmentType::Single, leds_count, matrix, offset, out)[offset as int] == vb[0],
        forall|p: int| 0 <= p < out.len() && p != offset ==> #[trigger] mapped_into(
            vb,
            SegmentType::Single,
            leds_count,
            matrix,
            offset,
            out,
        )[p] == out[p],
{
    lemma_single_writer(vb.len() as int, offset as int, leds_count, matrix, vb.len() as int, offset, out.len() as int);
    assert forall|p: int| 0 <= p < out.len() && p != offset implies #[trigger] mapped_into(
        vb,
        SegmentType::Single,
        leds_count,
        matrix,
        offset,
        out,
    )[p] == out[p] by {
        lemma_single_writer(vb.len() as int, p, leds_count, matrix, vb.len() as int, offset, out.len() as int);
    }
}

/// A strip target copies its virtual pixels in order onto the LEDs from its offset, as
/// far as its LED count, its buffer and the device reach, and leaves every other LED.
pub proof fn law_strip_target_copies_in_order(vb: Seq<Color>, leds_count: usize, offset: usize, out: Seq<Color>, p: int)
    requires
        0 <= p < out.len(),
    ensures
        mapped_into(vb, SegmentType::Linear, leds_count, None, offset, out).len() == out.len(),
        mapped_into(vb, SegmentType::Linear, leds_count, None, offset, out)[p] == (if offset <= p && p - offset < leds_count
            && p - offset < vb.len() {
            vb[p - offset]
        } else {
            out[p]
        }),
{
    lemma_linear_writer(vb.len() as int, p, leds_count, vb.len() as int, offset, out.len() as int);
}

/// Where virtual pixel `v` lands, computed.
fn target_of(
    v: usize,
    segment_type: SegmentType,
    leds_count: usize,
    matrix: &Option<MatrixMap>,
    virtual_len: usize,
    offset: usize,
    physical_len: usize,
) -> (r: Option<usize>)
    ensures
        match r {
            Some(d) => physical_target(v as int, segment_type, leds_count, opt_matrix_view(*matrix), virtual_len as int, offset, physical_len as int) == Some(d as int),
            None => physical_target(v as int, segment_type, leds_count, opt_matrix_view(*matrix), virtual_len as int, offset, physical_len as int) is None,
        },
{
    match segment_type {
        SegmentType::Single => {
            if v == 0 && virtual_len > 0 && offset < physical_len { Some(offset) } else { None }
        },
        SegmentType::Matrix if matrix.is_some() => {
            let m = matrix.as_ref().unwrap();
            if v < m.map.len() && v < virtual_len {
                match m.map[v] {
                    Some(local) => {
                        if local < leds_count {
                            let dest = if offset > usize::MAX - local { usize::MAX } else { offset + local };
                            if dest < physical_len { Some(dest) } else { None }
                        } else {
                            None
                        }
                    },
                    None => None,
                }
            } else {
                None
            }
        },
        _ => {
            if v < leds_count && v < virtual_len && offset < physical_len && v < physical_len - offset {
                Some(offset + v)
            } else {
                None
            }
        },
    }
}

/// Copies a target's virtual buffer onto the device's physical buffer: a single LED
/// takes the first pixel, a strip copies in order, a matrix places each mapped cell at
/// its LED (a later cell wins where two map to one LED); anything past the buffers'
/// ends is dropped.
pub fn map_segment_into_physical(
    virtual_buffer: &Vec<Color>,
    segment_type: SegmentType,
    leds_count: usize,
    matrix: &Option<MatrixMap>,
    physical_offset: usize,
    physical_out: &mut Vec<Color>,
)
    ensures
        final(physical_out)@ == mapped_into(
            virtual_buffer@,
            segment_type,
            leds_count,
            opt_matrix_view(*matrix),
            physical_offset,
            old(physical_out)@,
        ),
        final(physical_out)@.len() == old(physical_out)@.len(),
        forall|p: int| 0 <= p < old(physical_out)@.len() ==> #[trigger] final(physical_out)@[p] == {
            let w = last_writer(
                virtual_buffer@.len() as int,
                p,
                segment_type,
                leds_count,
                opt_matrix_view(*matrix),
                virtual_buffer@.len() as int,
                physical_offset,
                old(physical_out)@.len() as int,
            );
            if w >= 0 { virtual_buffer@[w] } else { old(physical_out)@[p] }
        },
{
    let ghost vm = opt_matrix_view(*matrix);
    let vl = virtual_buffer.len();
    let pl = physical_out.len();
    let ghost start = physical_out@;
    let mut v: usize = 0;
    while v < vl
        invariant
            physical_out@.len() == pl,
            pl == start.len(),
            vl == virtual_buffer@.len(),
            vm == opt_matrix_view(*matrix),
            v <= vl,
            forall|p: int| 0 <= p < pl ==> #[trigger] physical_out@[p] == {
                let w = last_writer(v as int, p, segment_type, leds_count, vm, vl as int, physical_offset, pl as int);
                if w >= 0 { virtual_buffer@[w] } else { start[p] }
            },
        decreases vl - v,
    {
        let ghost before = physical_out@;
        if let Some(dest) = target_of(v, segment_type, leds_count, matrix, vl, physical_offset, pl) {
            physical_out.set(dest, virtual_buffer[v]);
        }
        proof {
            assert forall|p: int| 0 <= p < pl implies #[trigger] physical_out@[p] == {
                let w = last_writer(v + 1, p, segment_type, leds_count, vm, vl as int, physical_offset, pl as int);
                if w >= 0 { virtual_buffer@[w] } else { start[p] }
            } by {
                assert(before[p] == {
                    let w = last_writer(v as int, p, segment_type, leds_count, vm, vl as int, physical_offset, pl as int);
                    if w >= 0 { virtual_buffer@[w] } else { start[p] }
                });
            }
        }
        v = v + 1;
    }
    assert(physical_out@ =~= mapped_into(virtual_buffer@, segment_type, leds_count, vm, physical_offset, start));
}

/// A target's rendered virtual buffer and where it goes on the device.
#[derive(Debug)]
pub struct FramePiece {
    pub buffer: Vec<Color>,
    pub segment_type: SegmentType,
    pub leds_count: usize,
    pub matrix: Option<MatrixMap>,
    pub physical_offset: usize,
}

/// The virtual pixel of `pc` that lands on physical LED `p` of a device of `len` LEDs, or -1.
pub open spec fn piece_writer(pc: FramePiece, p: int, len: int) -> int {
    last_writer(
        pc.buffer@.len() as int,
        p,
        pc.segment_type,
        pc.leds_count,
        opt_matrix_view(pc.matrix),
        pc.buffer@.len() as int,
        pc.physical_offset,
        len,
    )
}

/// `out` with the piece `pc` copied onto it (as `map_segment_into_physical` copies).
pub open spec fn placed(out: Seq<Color>, pc: FramePiece) -> Seq<Color> {
    Seq::new(out.len(), |p: int| if piece_writer(pc, p, out.len() as int) >= 0 {
        pc.buffer@[piece_writer(pc, p, out.len() as int)]
    } else {
        out[p]
    })
}

/// One frame of `total` LEDs: all black, with the pieces copied on in order.
pub open spec fn composed(total: nat, pieces: Seq<FramePiece>) -> Seq<Color>
    decreases pieces.len(),
{
    if pieces.len() == 0 {
        Seq::new(total, |i: int| black())
    } else {
        placed(composed(total, pieces.drop_last()), pieces.last())
    }
}

/// The frame sent to a device of `total` LEDs: black, with each rendered target copied
/// onto its LEDs in order.
pub fn compose_frame(total: usize, pieces: &Vec<FramePiece>) -> (r: Vec<Color>)
    ensures
        r@ == composed(total as nat, pieces@),
        r@.len() == total,
{
    let mut out: Vec<Color> = vec![Color { r: 0, g: 0, b: 0 }; total];
    proof {
        assert(pieces@.take(0) =~= Seq::<FramePiece>::empty());
        assert(out@ =~= composed(total as nat, pieces@.take(0)));
    }
    let mut i: usize = 0;
    while i < pieces.len()
        invariant
            i <= pieces@.len(),
            out@ == composed(total as nat, pieces@.take(i as int)),
        decreases pieces.len() - i,
    {
        let pc = &pieces[i];
        let ghost before = out@;
        map_segment_into_physical(&pc.buffer, pc.segment_type, pc.leds_count, &pc.matrix, pc.physical_offset, &mut out);
        proof {
            assert(pieces@.take(i + 1).drop_last() =~= pieces@.take(i as int));
            assert(pieces@.take(i + 1).last() == pieces@[i as int]);
            assert(out@ =~= placed(before, pieces@[i as int]));
        }
        i = i + 1;
    }
    proof {
        assert(pieces@.take(pieces@.len() as int) =~= pieces@);
        lemma_composed_len(total as nat, pieces@);
    }
    out
}

proof fn lemma_composed_len(total: nat, pieces: Seq<FramePiece>)
    ensures
        composed(total, pieces).len() == total,
    decreases pieces.len(),
{
    if pieces.len() > 0 {
        lemma_composed_len(total, pieces.drop_last());
    }
}

/// Every frame has one color per LED of the device, and an LED that no rendered target
/// covers (a target without an effect, or past every target) is black.
pub proof fn law_uncovered_leds_are_black(total: nat, pieces: Seq<FramePiece>, p: int)
    requires
        0 <= p < total,
        forall|i: int| 0 <= i < pieces.len() ==> piece_writer(#[trigger] pieces[i], p, total as int) < 0,
    ensures
        composed(total, pieces).len() == total,
        composed(total, pieces)[p] == black(),
    decreases pieces.len(),
{
    lemma_composed_len(total, pieces);
    if pieces.len() > 0 {
        let init = pieces.drop_last();
        assert forall|i: int| 0 <= i < init.len() implies piece_writer(#[trigger] init[i], p, total as int) < 0 by {
            assert(init[i] == pieces[i]);
        }
        law_uncovered_leds_are_black(total, init, p);
        lemma_composed_len(total, init);
        assert(piece_writer(pieces[pieces.len() - 1], p, total as int) < 0);
    }
}

/// What a render target runs (or prepares): effect, its start time, its virtual size and
/// the parameter revision it was configured with.
#[derive(Debug)]
pub struct RuntimeSpec {
    pub effect_id: String,
    pub origin_started_at: u64,
    pub width: usize,
    pub height: usize,
    pub origin_rev: u64,
}

/// Same effect instance: id, start time and size agree (the revision may differ).
pub open spec fn same_instance(a: RuntimeSpec, b: RuntimeSpec) -> bool {
    a.effect_id@ == b.effect_id@ && a.origin_started_at == b.origin_started_at && a.width == b.width && a.height == b.height
}

/// How a render target follows a change of what it should run.
#[derive(Clone, Copy, Debug, PartialEq, Eq, Structural)]
pub enum UpdatePlan {
    /// It already runs it; hand it the new parameters where the revision changed.
    KeepCurrent { params_changed: bool },
    /// Preparing exactly this failed before; keep rendering the current effect.
    StayBlocked,
    /// It is already preparing it; hand it the new parameters where the revision changed.
    KeepPending { params_changed: bool },
    /// Start preparing it, keep rendering the current effect meanwhile.
    StartPending,
}

fn same_instance_exec(a: &RuntimeSpec, b: &RuntimeSpec) -> (r: bool)
    ensures
        r == same_instance(*a, *b),
{
    str_equal(a.effect_id.as_str(), b.effect_id.as_str()) && a.origin_started_at == b.origin_started_at
        && a.width == b.width && a.height == b.height
}

/// Decides how a render target follows what it should run (`desired`), given what it
/// runs, what it prepares and what failed to prepare before.
pub fn plan_runtime_update(
    current: &RuntimeSpec,
    pending: &Option<RuntimeSpec>,
    blocked: &Option<RuntimeSpec>,
    desired: &RuntimeSpec,
) -> (r: UpdatePlan)
    ensures
        r == (if same_instance(*current, *desired) {
            UpdatePlan::KeepCurrent { params_changed: current.origin_rev != desired.origin_rev }
        } else if *blocked matches Some(b) && same_instance(b, *desired) && b.origin_rev == desired.origin_rev {
            UpdatePlan::StayBlocked
        } else if *pending matches Some(p) && same_instance(p, *desired) {
            UpdatePlan::KeepPending { params_changed: pending->0.origin_rev != desired.origin_rev }
        } else {
            UpdatePlan::StartPending
        }),
{
    if same_instance_exec(current, desired) {
        return UpdatePlan::KeepCurrent { params_changed: current.origin_rev != desired.origin_rev };
    }
    if let Some(b) = blocked {
        if same_instance_exec(b, desired) && b.origin_rev == desired.origin_rev {
            return UpdatePlan::StayBlocked;
        }
    }
    if let Some(p) = pending {
        if same_instance_exec(p, desired) {
            return UpdatePlan::KeepPending { params_changed: p.origin_rev != desired.origin_rev };
        }
    }
    UpdatePlan::StartPending
}

/// Whether a switch started at `started_ms` has waited longer than the ready timeout at `now_ms`.
pub fn switch_timed_out(started_ms: u64, now_ms: u64) -> (b: bool)
    ensures
        b == (now_ms > started_ms && now_ms - started_ms > crate::switching::EFFECT_READY_TIMEOUT_MS),
{
    now_ms > started_ms && now_ms - started_ms > crate::switching::EFFECT_READY_TIMEOUT_MS
}


/// The targets lie one after another from `start`: each begins where the one before it
/// ends, and the last ends at `end`.
pub open spec fn tiles(tasks: Seq<TaskView>, start: usize, end: usize) -> bool {
    if tasks.len() == 0 {
        end == start
    } else {
        &&& tasks[0].physical_offset == start
        &&& forall|k: int| 0 <= k < tasks.len() - 1 ==> #[trigger] tasks[k + 1].physical_offset == sat_add(
            tasks[k].physical_offset,
            tasks[k].leds_count,
        )
        &&& end == sat_add(tasks.last().physical_offset, tasks.last().leds_count)
    }
}

proof fn lemma_tiles_concat(a: Seq<TaskView>, b: Seq<TaskView>, s: usize, m: usize, e: usize)
    requires
        tiles(a, s, m),
        tiles(b, m, e),
    ensures
        tiles(a + b, s, e),
{
    let c = a + b;
    if a.len() > 0 && b.len() > 0 {
        assert forall|k: int| 0 <= k < c.len() - 1 implies #[trigger] c[k + 1].physical_offset == sat_add(
            c[k].physical_offset,
            c[k].leds_count,
        ) by {
            if k < a.len() - 1 {
                assert(c[k] == a[k] && c[k + 1] == a[k + 1]);
            } else if k == a.len() - 1 {
                assert(c[k] == a.last() && c[k + 1] == b[0]);
            } else {
                assert(c[k] == b[k - a.len()] && c[k + 1] == b[k - a.len() + 1]);
            }
        }
        assert(c.last() == b.last());
    } else if a.len() == 0 {
        assert(c =~= b);
    } else {
        assert(c =~= a);
    }
}

proof fn lemma_output_tiles(o: OutputView, offset: usize)
    ensures
        output_tasks(o, offset).len() > 0,
        tiles(output_tasks(o, offset), offset, output_end(o, offset)),
{
    if renders_segments(o) {
        let t = output_tasks(o, offset);
        assert(t[0].physical_offset == segments_end(o, offset, 0));
        assert forall|k: int| 0 <= k < t.len() - 1 implies #[trigger] t[k + 1].physical_offset == sat_add(
            t[k].physical_offset,
            t[k].leds_count,
        ) by {
            assert(segments_end(o, offset, k + 1) == sat_add(segments_end(o, offset, k), at_least_one(o.segments[k].leds_count)));
        }
        let n = o.segments.len() as int;
        assert(segments_end(o, offset, n) == sat_add(segments_end(o, offset, n - 1), at_least_one(o.segments[n - 1].leds_count)));
    }
}

/// The render targets of a frame cover the device's physical buffer in order, without
/// gaps or overlaps: the first starts at 0, each starts where the one before it ends,
/// and the last ends at the device's total LED count.
pub proof fn law_targets_tile_physical_order(outs: Seq<OutputView>)
    ensures
        tiles(planned_tasks(outs), 0, outputs_end(outs)),
    decreases outs.len(),
{
    if outs.len() > 0 {
        law_targets_tile_physical_order(outs.drop_last());
        lemma_output_tiles(outs.last(), outputs_end(outs.drop_last()));
        lemma_tiles_concat(
            planned_tasks(outs.drop_last()),
            output_tasks(outs.last(), outputs_end(outs.drop_last())),
            0,
            outputs_end(outs.drop_last()),
            outputs_end(outs),
        );
    }
}

} // verus!
