//! The device configuration as it is saved and restored: segment layouts per output, and
//! effect selection, parameters and brightness per scope.
use vstd::prelude::*;
use vstd::string::*;
use crate::layout::{SegmentDefinition, SegmentType, duplicate_opt_matrix, opt_matrix_view};
use crate::params::{EffectCatalog, EffectParams};
use crate::scope::{
    ActiveEffect, DeviceConfig, DeviceView, ModeConfig, ModeView, OutputView, SegmentView, effect_not_found, next_rev,
    out_index, seg_index, ScopeKey, set_effect_outcome, set_brightness_outcome, update_params_outcome,
    continued_start, lemma_with_mode_shape, lemma_same_shape_locates, merged, update_base, update_target,
};
use crate::segments::{first_definition_error, leds_total, rebuilt_segments, total_error};

verus! {

/// The saved state of one scope's mode: the explicit selection and the stored parameters.
#[derive(Debug)]
pub struct PersistedModeConfig {
    pub selected: Option<String>,
    pub params: EffectParams,
}

/// The saved segment layout of one output, in order.
#[derive(Debug)]
pub struct PersistedOutputLayout {
    pub segments: Vec<SegmentDefinition>,
}

/// The saved segment layouts, by output id.
#[derive(Debug)]
pub struct PersistedDeviceSection {
    pub layout: Vec<(String, PersistedOutputLayout)>,
}

/// The saved effect state of one segment. A brightness of `None` means full brightness.
#[derive(Debug)]
pub struct PersistedSegmentEffectsConfig {
    pub id: String,
    pub brightness: Option<u8>,
    pub selected: Option<String>,
    pub params: EffectParams,
}

/// The saved effect state of one output and its segments. A brightness of `None` means
/// full brightness.
#[derive(Debug)]
pub struct PersistedOutputEffectsConfig {
    pub id: String,
    pub brightness: Option<u8>,
    pub selected: Option<String>,
    pub params: EffectParams,
    pub segments: Vec<PersistedSegmentEffectsConfig>,
}

/// The saved effect state of a device: its own mode and brightness, and its outputs'.
#[derive(Debug)]
pub struct PersistedEffectsSection {
    pub selected: Option<String>,
    pub params: EffectParams,
    pub brightness: u8,
    pub outputs: Vec<PersistedOutputEffectsConfig>,
}

/// The saved configuration of a device.
#[derive(Debug)]
pub struct PersistedDeviceConfig {
    pub device: PersistedDeviceSection,
    pub effects: PersistedEffectsSection,
}

/// The text of an optional string.
pub open spec fn opt_text(o: Option<String>) -> Option<Seq<char>> {
    match o {
        Some(s) => Some(s@),
        None => None,
    }
}

/// A saved brightness, full where none was saved.
pub open spec fn brightness_or_full(b: Option<u8>) -> u8 {
    match b {
        Some(v) => v,
        None => 100,
    }
}

/// The brightness saved for a scope: only where the scope selects an effect of its own
/// or is not at full brightness.
pub open spec fn saved_brightness(mode: ModeView, brightness: u8) -> Option<u8> {
    if mode.active is Some || brightness != 100 {
        Some(brightness)
    } else {
        None
    }
}

/// The selection a mode saves.
pub open spec fn saved_selection(mode: ModeView) -> Option<Seq<char>> {
    match mode.active {
        Some(a) => Some(a.0),
        None => None,
    }
}

/// A mode restored from a saved selection and parameters, and the error if the selected
/// effect has neither saved parameters nor registered defaults. The parameters are
/// replaced in any case; a restored selection starts at `now`.
pub open spec fn mode_restored(
    m: ModeView,
    selected: Option<Seq<char>>,
    params: Map<Seq<char>, Seq<(String, String)>>,
    now: u64,
    catalog: EffectCatalog,
) -> (ModeView, Option<Seq<char>>) {
    let base = ModeView { params, ..m };
    match selected {
        Some(id) => if base.knows(id, catalog) {
            (base.select(id, now, catalog), None)
        } else {
            (base, Some(effect_not_found(id)))
        },
        None => (ModeView { active: None, params, rev: next_rev(m.rev) }, None),
    }
}

impl PersistedModeConfig {
    /// Every stored parameter table is well formed.
    pub open spec fn wf(&self) -> bool {
        self.params.wf()
    }

    /// The saved state of a mode.
    pub fn from_mode(mode: &ModeConfig) -> (p: PersistedModeConfig)
        requires
            mode.wf(),
        ensures
            p.wf(),
            opt_text(p.selected) == saved_selection(mode@),
            p.params@ == mode@.params,
    {
        PersistedModeConfig { selected: mode.selected_effect_id(), params: mode.params_by_effect.duplicate() }
    }
}

/// Restores a mode from its saved state: the saved parameters replace the stored ones,
/// and the saved selection, if any, is selected again, starting at `now`.
pub fn apply_persisted_mode(
    mode: &mut ModeConfig,
    persisted: &PersistedModeConfig,
    now: u64,
    catalog: &EffectCatalog,
) -> (r: Result<(), String>)
    requires
        old(mode).wf(),
        persisted.wf(),
        catalog.wf(),
    ensures
        final(mode).wf(),
        ({
            let (m, e) = mode_restored(old(mode)@, opt_text(persisted.selected), persisted.params@, now, *catalog);
            &&& final(mode)@ == m
            &&& match r {
                Ok(_) => e is None,
                Err(x) => e == Some(x@),
            }
        }),
{
    mode.params_by_effect = persisted.params.duplicate();
    match &persisted.selected {
        Some(effect_id) => {
            mode.ensure_params_entry(effect_id.as_str(), catalog)?;
            mode.active_effect = Some(ActiveEffect { effect_id: effect_id.clone(), started_at: now });
        },
        None => {
            mode.active_effect = None;
        },
    }
    mode.rev = mode.rev.wrapping_add(1);
    Ok(())
}


/// A segment definition describes a segment: same id, name, type, LED count and matrix.
pub open spec fn def_matches(d: SegmentDefinition, s: SegmentView) -> bool {
    &&& d.id@ == s.id
    &&& d.name@ == s.name
    &&& d.segment_type == s.segment_type
    &&& d.leds_count == s.leds_count
    &&& opt_matrix_view(d.matrix) == s.matrix
}

/// Definitions that describe the segments one for one.
pub open spec fn defs_match(defs: Seq<SegmentDefinition>, segs: Seq<SegmentView>) -> bool {
    &&& defs.len() == segs.len()
    &&& forall|j: int| 0 <= j < defs.len() ==> def_matches(#[trigger] defs[j], segs[j])
}

/// The outputs that have segments, in order.
pub open spec fn laid_out(outs: Seq<OutputView>) -> Seq<OutputView>
    decreases outs.len(),
{
    if outs.len() == 0 {
        Seq::empty()
    } else if outs.last().segments.len() > 0 {
        laid_out(outs.drop_last()).push(outs.last())
    } else {
        laid_out(outs.drop_last())
    }
}

/// The saved state of a segment.
pub open spec fn segment_saved(p: PersistedSegmentEffectsConfig, s: SegmentView) -> bool {
    &&& p.id@ == s.id
    &&& p.brightness == saved_brightness(s.mode, s.brightness)
    &&& opt_text(p.selected) == saved_selection(s.mode)
    &&& p.params@ == s.mode.params
    &&& p.params.wf()
}

/// The saved state of an output and its segments.
pub open spec fn output_saved(p: PersistedOutputEffectsConfig, o: OutputView) -> bool {
    &&& p.id@ == o.id
    &&& p.brightness == saved_brightness(o.mode, o.brightness)
    &&& opt_text(p.selected) == saved_selection(o.mode)
    &&& p.params@ == o.mode.params
    &&& p.params.wf()
    &&& p.segments@.len() == o.segments.len()
    &&& forall|j: int| 0 <= j < o.segments.len() ==> segment_saved(#[trigger] p.segments@[j], o.segments[j])
}

/// The saved configuration of a device: the layout of every output that has segments,
/// and the mode and brightness of every scope.
pub open spec fn device_saved(p: PersistedDeviceConfig, d: DeviceView) -> bool {
    let lay = laid_out(d.outputs);
    &&& p.device.layout@.len() == lay.len()
    &&& forall|k: int| 0 <= k < lay.len() ==> (#[trigger] p.device.layout@[k]).0@ == lay[k].id
        && defs_match(p.device.layout@[k].1.segments@, lay[k].segments)
    &&& opt_text(p.effects.selected) == saved_selection(d.mode)
    &&& p.effects.params@ == d.mode.params
    &&& p.effects.params.wf()
    &&& p.effects.brightness == d.brightness
    &&& p.effects.outputs@.len() == d.outputs.len()
    &&& forall|i: int| 0 <= i < d.outputs.len() ==> output_saved(#[trigger] p.effects.outputs@[i], d.outputs[i])
}

/// The brightness a scope saves.
fn save_brightness(mode: &ModeConfig, brightness: u8) -> (b: Option<u8>)
    ensures
        b == saved_brightness(mode@, brightness),
{
    if mode.active_effect.is_some() || brightness != 100 {
        Some(brightness)
    } else {
        None
    }
}

/// The saved configuration of a device.
pub fn export_persisted_device_config(cfg: &DeviceConfig) -> (p: PersistedDeviceConfig)
    requires
        cfg.wf(),
    ensures
        device_saved(p, cfg@),
{
    let mut layout: Vec<(String, PersistedOutputLayout)> = Vec::new();
    let mut outputs: Vec<PersistedOutputEffectsConfig> = Vec::new();
    let mut i: usize = 0;
    while i < cfg.outputs.len()
        invariant
            cfg.wf(),
            i <= cfg.outputs@.len(),
            layout@.len() == laid_out(cfg@.outputs.take(i as int)).len(),
            forall|k: int| 0 <= k < layout@.len() ==> (#[trigger] layout@[k]).0@ == laid_out(cfg@.outputs.take(i as int))[k].id
                && defs_match(layout@[k].1.segments@, laid_out(cfg@.outputs.take(i as int))[k].segments),
            outputs@.len() == i,
            forall|a: int| 0 <= a < i ==> output_saved(#[trigger] outputs@[a], cfg@.outputs[a]),
        decreases cfg.outputs.len() - i,
    {
        let out = &cfg.outputs[i];
        proof {
            assert(out.wf());
            assert(cfg@.outputs[i as int] == out@);
            assert(cfg@.outputs.take(i as int + 1).drop_last() =~= cfg@.outputs.take(i as int));
        }
        let ghost before = layout@;
        let mut segs: Vec<PersistedSegmentEffectsConfig> = Vec::new();
        let mut defs: Vec<SegmentDefinition> = Vec::new();
        let mut j: usize = 0;
        while j < out.segments.len()
            invariant
                out.wf(),
                j <= out.segments@.len(),
                segs@.len() == j,
                defs@.len() == j,
                forall|b: int| 0 <= b < j ==> segment_saved(#[trigger] segs@[b], out@.segments[b]),
                forall|b: int| 0 <= b < j ==> def_matches(#[trigger] defs@[b], out@.segments[b]),
            decreases out.segments.len() - j,
        {
            let s = &out.segments[j];
            proof {
                assert(s.wf());
                assert(out@.segments[j as int] == s@);
            }
            defs.push(SegmentDefinition {
                id: s.id.clone(),
                name: s.name.clone(),
                segment_type: s.segment_type,
                leds_count: s.leds_count,
                matrix: duplicate_opt_matrix(&s.matrix),
            });
            segs.push(PersistedSegmentEffectsConfig {
                id: s.id.clone(),
                brightness: save_brightness(&s.mode, s.brightness),
                selected: s.mode.selected_effect_id(),
                params: s.mode.params_by_effect.duplicate(),
            });
            j = j + 1;
        }
        if out.segments.len() > 0 {
            layout.push((out.id.clone(), PersistedOutputLayout { segments: defs }));
        }
        proof {
            assert(defs_match(defs@, out@.segments));
        }
        outputs.push(PersistedOutputEffectsConfig {
            id: out.id.clone(),
            brightness: save_brightness(&out.mode, out.brightness),
            selected: out.mode.selected_effect_id(),
            params: out.mode.params_by_effect.duplicate(),
            segments: segs,
        });
        i = i + 1;
    }
    proof {
        assert(cfg@.outputs.take(i as int) =~= cfg@.outputs);
    }
    PersistedDeviceConfig {
        device: PersistedDeviceSection { layout },
        effects: PersistedEffectsSection {
            selected: cfg.mode.selected_effect_id(),
            params: cfg.mode.params_by_effect.duplicate(),
            brightness: cfg.brightness,
            outputs,
        },
    }
}


/// The device after restoring the saved layout `defs` of output `id`: where it names an
/// output that is linear and editable, and the definitions are some and are accepted,
/// the output's segments are rebuilt from them; otherwise nothing changes.
pub open spec fn with_layout_entry(d: DeviceView, id: Seq<char>, defs: Seq<SegmentDefinition>) -> DeviceView {
    let i = out_index(d.outputs, id);
    if defs.len() == 0 || i < 0 {
        d
    } else {
        let o = d.outputs[i];
        if o.output_type == SegmentType::Linear && o.capabilities.editable
            && first_definition_error(o.capabilities, id, defs) is None
            && total_error(o, leds_total(defs)) is None {
            DeviceView { outputs: d.outputs.update(i, o.with_segments(rebuilt_segments(o.segments, defs))), ..d }
        } else {
            d
        }
    }
}

/// The device after restoring the saved layouts in order.
pub open spec fn layout_restored(d: DeviceView, layout: Seq<(String, PersistedOutputLayout)>) -> DeviceView
    decreases layout.len(),
{
    if layout.len() == 0 {
        d
    } else {
        let e = layout.last();
        with_layout_entry(layout_restored(d, layout.drop_last()), e.0@, e.1.segments@)
    }
}

/// Every saved layout has a total LED count that fits in memory sizes.
pub open spec fn layout_fits(layout: Seq<(String, PersistedOutputLayout)>) -> bool {
    forall|k: int| 0 <= k < layout.len() ==> leds_total(#[trigger] layout[k].1.segments@) <= usize::MAX
}

/// Restores the saved layouts in order; one that is refused is skipped.
fn apply_layout(cfg: &mut DeviceConfig, layout: &Vec<(String, PersistedOutputLayout)>)
    requires
        old(cfg).wf(),
        layout_fits(layout@),
    ensures
        final(cfg).wf(),
        final(cfg)@ == layout_restored(old(cfg)@, layout@),
{
    let ghost start = cfg@;
    let mut k: usize = 0;
    while k < layout.len()
        invariant
            cfg.wf(),
            k <= layout@.len(),
            layout_fits(layout@),
            cfg@ == layout_restored(start, layout@.take(k as int)),
        decreases layout.len() - k,
    {
        proof {
            assert(layout@.take(k as int + 1).drop_last() =~= layout@.take(k as int));
            assert(layout@.take(k as int + 1).last() == layout@[k as int]);
            assert(leds_total(layout@[k as int].1.segments@) <= usize::MAX);
        }
        let entry = &layout[k];
        if entry.1.segments.len() > 0 {
            let ghost before = cfg@;
            let r = crate::segments::set_output_segments(cfg, entry.0.as_str(), &entry.1.segments);
            proof {
                crate::scope::lemma_out_index(before.outputs, entry.0@);
            }
        }
        k = k + 1;
    }
    proof {
        assert(layout@.take(k as int) =~= layout@);
    }
}


/// A segment after restoring its saved effect state.
pub open spec fn segment_restored(s: SegmentView, p: PersistedSegmentEffectsConfig, now: u64, catalog: EffectCatalog) -> SegmentView {
    SegmentView {
        brightness: brightness_or_full(p.brightness),
        mode: mode_restored(s.mode, opt_text(p.selected), p.params@, now, catalog).0,
        ..s
    }
}

/// The segments after restoring the saved segment states in order; each goes to the
/// first segment with its id, and one that names no segment is skipped. A selection
/// that cannot be restored leaves the parameters replaced.
pub open spec fn segments_restored(
    segs: Seq<SegmentView>,
    ps: Seq<PersistedSegmentEffectsConfig>,
    now: u64,
    catalog: EffectCatalog,
) -> Seq<SegmentView>
    decreases ps.len(),
{
    if ps.len() == 0 {
        segs
    } else {
        let prev = segments_restored(segs, ps.drop_last(), now, catalog);
        let p = ps.last();
        let i = seg_index(prev, p.id@);
        if i < 0 {
            prev
        } else {
            prev.update(i, segment_restored(prev[i], p, now, catalog))
        }
    }
}

/// Every saved segment state has well-formed parameters.
pub open spec fn segments_wf(ps: Seq<PersistedSegmentEffectsConfig>) -> bool {
    forall|k: int| 0 <= k < ps.len() ==> (#[trigger] ps[k]).params.wf()
}

fn clone_opt_string(o: &Option<String>) -> (r: Option<String>)
    ensures
        opt_text(r) == opt_text(*o),
{
    match o {
        Some(s) => Some(s.clone()),
        None => None,
    }
}

/// Restores the saved segment states of an output.
fn apply_segment_effects(
    out: &mut crate::scope::OutputConfig,
    ps: &Vec<PersistedSegmentEffectsConfig>,
    now: u64,
    catalog: &EffectCatalog,
)
    requires
        old(out).wf(),
        segments_wf(ps@),
        catalog.wf(),
    ensures
        final(out).wf(),
        final(out)@ == old(out)@.with_segments(segments_restored(old(out)@.segments, ps@, now, *catalog)),
{
    let ghost start = out@;
    let mut k: usize = 0;
    while k < ps.len()
        invariant
            out.wf(),
            k <= ps@.len(),
            segments_wf(ps@),
            catalog.wf(),
            out@ == start.with_segments(segments_restored(start.segments, ps@.take(k as int), now, *catalog)),
        decreases ps.len() - k,
    {
        proof {
            assert(ps@.take(k as int + 1).drop_last() =~= ps@.take(k as int));
            assert(ps@.take(k as int + 1).last() == ps@[k as int]);
            assert(ps@[k as int].params.wf());
        }
        let p = &ps[k];
        match crate::scope::find_segment(&out.segments, p.id.as_str()) {
            Some(idx) => {
                let ghost before = *out;
                proof {
                    crate::scope::lemma_seg_index(before@.segments, p.id@);
                    assert(before.segments@[idx as int].wf());
                }
                let pm = PersistedModeConfig { selected: clone_opt_string(&p.selected), params: p.params.duplicate() };
                out.segments[idx].brightness = match p.brightness {
                    Some(b) => b,
                    None => 100,
                };
                let _ = apply_persisted_mode(&mut out.segments[idx].mode, &pm, now, catalog);
                proof {
                    assert forall|a: int| 0 <= a < out.segments@.len() && a != idx implies #[trigger] out.segments@[a] == before.segments@[a] by {}
                    assert forall|a: int| 0 <= a < out.segments@.len() implies (#[trigger] out.segments@[a]).wf() by {
                        if a != idx {
                            assert(before.segments@[a].wf());
                        }
                    }
                    assert(out@ =~~= before@.with_segments(before@.segments.update(
                        idx as int,
                        segment_restored(before@.segments[idx as int], *p, now, *catalog),
                    )));
                }
            },
            None => {},
        }
        k = k + 1;
    }
    proof {
        assert(ps@.take(k as int) =~= ps@);
    }
}


/// The device after restoring the saved output states in order, and the error that
/// stopped it: each goes to the output found by its id and one that names no output is
/// skipped; an output whose selection cannot be restored stops the restore, with its
/// brightness and parameters already replaced and its segments untouched.
pub open spec fn outputs_restored(
    d: DeviceView,
    ps: Seq<PersistedOutputEffectsConfig>,
    now: u64,
    catalog: EffectCatalog,
) -> (DeviceView, Option<Seq<char>>)
    decreases ps.len(),
{
    if ps.len() == 0 {
        (d, None)
    } else {
        let (prev, err) = outputs_restored(d, ps.drop_last(), now, catalog);
        let p = ps.last();
        let i = out_index(prev.outputs, p.id@);
        if err is Some || i < 0 {
            (prev, err)
        } else {
            let o = prev.outputs[i];
            let (m, e) = mode_restored(o.mode, opt_text(p.selected), p.params@, now, catalog);
            let o1 = OutputView { brightness: brightness_or_full(p.brightness), mode: m, ..o };
            if e is Some {
                (DeviceView { outputs: prev.outputs.update(i, o1), ..prev }, e)
            } else {
                (
                    DeviceView {
                        outputs: prev.outputs.update(i, o1.with_segments(segments_restored(o.segments, p.segments@, now, catalog))),
                        ..prev
                    },
                    None,
                )
            }
        }
    }
}

/// Every saved output state has well-formed parameters, its segments' too.
pub open spec fn outputs_wf(ps: Seq<PersistedOutputEffectsConfig>) -> bool {
    forall|k: int| 0 <= k < ps.len() ==> (#[trigger] ps[k]).params.wf() && segments_wf(ps[k].segments@)
}

/// Restores the saved output states in order.
fn apply_output_effects(
    cfg: &mut DeviceConfig,
    ps: &Vec<PersistedOutputEffectsConfig>,
    now: u64,
    catalog: &EffectCatalog,
) -> (r: Result<(), String>)
    requires
        old(cfg).wf(),
        outputs_wf(ps@),
        catalog.wf(),
    ensures
        final(cfg).wf(),
        ({
            let (d, e) = outputs_restored(old(cfg)@, ps@, now, *catalog);
            &&& final(cfg)@ == d
            &&& match r {
                Ok(_) => e is None,
                Err(x) => e == Some(x@),
            }
        }),
{
    let ghost start = cfg@;
    let mut k: usize = 0;
    while k < ps.len()
        invariant
            cfg.wf(),
            k <= ps@.len(),
            outputs_wf(ps@),
            catalog.wf(),
            start == old(cfg)@,
            outputs_restored(start, ps@.take(k as int), now, *catalog) == (cfg@, None::<Seq<char>>),
        decreases ps.len() - k,
    {
        proof {
            assert(ps@.take(k as int + 1).drop_last() =~= ps@.take(k as int));
            assert(ps@.take(k as int + 1).last() == ps@[k as int]);
            assert(ps@[k as int].params.wf() && segments_wf(ps@[k as int].segments@));
        }
        let p = &ps[k];
        match cfg.output(p.id.as_str()) {
            Some(i) => {
                let ghost before = *cfg;
                proof {
                    crate::scope::lemma_out_index(before@.outputs, p.id@);
                    assert(before.outputs@[i as int].wf());
                }
                let pm = PersistedModeConfig { selected: clone_opt_string(&p.selected), params: p.params.duplicate() };
                cfg.outputs[i].brightness = match p.brightness {
                    Some(b) => b,
                    None => 100,
                };
                let res = apply_persisted_mode(&mut cfg.outputs[i].mode, &pm, now, catalog);
                let ghost mid = *cfg;
                proof {
                    assert forall|a: int| 0 <= a < cfg.outputs@.len() && a != i implies #[trigger] cfg.outputs@[a] == before.outputs@[a] by {}
                    assert forall|a: int| 0 <= a < cfg.outputs@.len() implies (#[trigger] cfg.outputs@[a]).wf() by {
                        if a != i {
                            assert(before.outputs@[a].wf());
                        }
                    }
                }
                match res {
                    Ok(_) => {},
                    Err(e) => {
                        proof {
                            assert(ps@.take(k as int + 1).drop_last() =~= ps@.take(k as int));
                            assert(cfg@ =~~= DeviceView {
                                outputs: before@.outputs.update(i as int, OutputView {
                                    brightness: brightness_or_full(p.brightness),
                                    mode: mode_restored(before@.outputs[i as int].mode, opt_text(p.selected), p.params@, now, *catalog).0,
                                    ..before@.outputs[i as int]
                                }),
                                ..before@
                            });
                            let t = ps@.take(k as int + 1);
                            assert(t.last() == *p);
                            assert(outputs_restored(start, t.drop_last(), now, *catalog) == (before@, None::<Seq<char>>));
                            assert(out_index(before@.outputs, p.id@) == i as int);
                            assert(outputs_restored(start, t, now, *catalog) == (cfg@, Some(e@)));
                            lemma_outputs_restored_stops(start, ps@, k as int + 1, now, *catalog);
                            assert(ps@.take(ps@.len() as int) =~= ps@);
                        }
                        return Err(e);
                    },
                }
                apply_segment_effects(&mut cfg.outputs[i], &p.segments, now, catalog);
                proof {
                    assert forall|a: int| 0 <= a < cfg.outputs@.len() && a != i implies #[trigger] cfg.outputs@[a] == mid.outputs@[a] by {}
                    assert forall|a: int| 0 <= a < cfg.outputs@.len() implies (#[trigger] cfg.outputs@[a]).wf() by {
                        if a != i {
                            assert(mid.outputs@[a].wf());
                        }
                    }
                    assert(cfg@ =~~= DeviceView {
                        outputs: before@.outputs.update(i as int, OutputView {
                            brightness: brightness_or_full(p.brightness),
                            mode: mode_restored(before@.outputs[i as int].mode, opt_text(p.selected), p.params@, now, *catalog).0,
                            ..before@.outputs[i as int]
                        }.with_segments(segments_restored(before@.outputs[i as int].segments, p.segments@, now, *catalog))),
                        ..before@
                    });
                }
            },
            None => {},
        }
        k = k + 1;
    }
    proof {
        assert(ps@.take(k as int) =~= ps@);
    }
    Ok(())
}

/// Once an error stops the restore, later saved states change nothing.
proof fn lemma_outputs_restored_stops(
    d: DeviceView,
    ps: Seq<PersistedOutputEffectsConfig>,
    k: int,
    now: u64,
    catalog: EffectCatalog,
)
    requires
        0 <= k <= ps.len(),
        outputs_restored(d, ps.take(k), now, catalog).1 is Some,
    ensures
        outputs_restored(d, ps, now, catalog) == outputs_restored(d, ps.take(k), now, catalog),
    decreases ps.len() - k,
{
    if k < ps.len() {
        assert(ps.take(k + 1).drop_last() =~= ps.take(k));
        lemma_outputs_restored_stops(d, ps, k + 1, now, catalog);
    } else {
        assert(ps.take(k) =~= ps);
    }
}


/// The device after restoring a saved configuration, and the error that stopped it:
/// the device brightness, then the layouts, then the device mode (an error there stops
/// the restore), then the outputs and their segments.
pub open spec fn persisted_restored(
    d: DeviceView,
    p: PersistedDeviceConfig,
    now: u64,
    catalog: EffectCatalog,
) -> (DeviceView, Option<Seq<char>>) {
    let d1 = layout_restored(DeviceView { brightness: p.effects.brightness, ..d }, p.device.layout@);
    let (m, e) = mode_restored(d1.mode, opt_text(p.effects.selected), p.effects.params@, now, catalog);
    let d2 = DeviceView { mode: m, ..d1 };
    if e is Some {
        (d2, e)
    } else {
        outputs_restored(d2, p.effects.outputs@, now, catalog)
    }
}

/// Every parameter table of a saved configuration is well formed, and its layouts fit.
pub open spec fn persisted_wf(p: PersistedDeviceConfig) -> bool {
    &&& p.effects.params.wf()
    &&& outputs_wf(p.effects.outputs@)
    &&& layout_fits(p.device.layout@)
}

/// Whether every parameter table of a saved configuration is well formed and its layouts
/// fit.
pub fn persisted_fits(p: &PersistedDeviceConfig) -> (b: bool)
    requires
        p.effects.params.wf(),
        outputs_wf(p.effects.outputs@),
    ensures
        b == layout_fits(p.device.layout@),
{
    let mut k: usize = 0;
    while k < p.device.layout.len()
        invariant
            k <= p.device.layout@.len(),
            forall|a: int| 0 <= a < k ==> leds_total(#[trigger] p.device.layout@[a].1.segments@) <= usize::MAX,
        decreases p.device.layout.len() - k,
    {
        let segs = &p.device.layout[k].1.segments;
        let mut total: u128 = 0;
        let mut j: usize = 0;
        while j < segs.len()
            invariant
                j <= segs@.len(),
                total == leds_total(segs@.take(j as int)),
                total <= j * 0xffff_ffff_ffff_ffffnat,
            decreases segs.len() - j,
        {
            proof {
                assert(segs@.take(j as int + 1).drop_last() =~= segs@.take(j as int));
                assert(segs@.take(j as int + 1).last() == segs@[j as int]);
                assert(total + segs@[j as int].leds_count <= (j + 1) * 0xffff_ffff_ffff_ffffnat) by (nonlinear_arith)
                    requires
                        total <= j * 0xffff_ffff_ffff_ffffnat,
                        segs@[j as int].leds_count <= 0xffff_ffff_ffff_ffffnat,
                ;
                assert((j + 1) * 0xffff_ffff_ffff_ffffnat < 0x1_0000_0000_0000_0000_0000_0000_0000_0000nat) by (nonlinear_arith)
                    requires
                        j < 0xffff_ffff_ffff_ffffnat,
                ;
            }
            total = total + segs[j].leds_count as u128;
            j = j + 1;
        }
        proof {
            assert(segs@.take(j as int) =~= segs@);
        }
        if total > usize::MAX as u128 {
            return false;
        }
        k = k + 1;
    }
    true
}

/// Restores a saved configuration onto a device, as far as it applies: layouts of
/// unknown or non-editable outputs, saved states of unknown scopes and refused layouts
/// are skipped; a device or output selection that cannot be restored stops the restore
/// with an error, while one of a segment is passed over.
pub fn apply_persisted_device_config(
    cfg: &mut DeviceConfig,
    persisted: &PersistedDeviceConfig,
    now: u64,
    catalog: &EffectCatalog,
) -> (r: Result<(), String>)
    requires
        old(cfg).wf(),
        persisted_wf(*persisted),
        catalog.wf(),
    ensures
        final(cfg).wf(),
        ({
            let (d, e) = persisted_restored(old(cfg)@, *persisted, now, *catalog);
            &&& final(cfg)@ == d
            &&& match r {
                Ok(_) => e is None,
                Err(x) => e == Some(x@),
            }
        }),
{
    cfg.brightness = persisted.effects.brightness;
    apply_layout(cfg, &persisted.device.layout);
    let device_mode = PersistedModeConfig {
        selected: clone_opt_string(&persisted.effects.selected),
        params: persisted.effects.params.duplicate(),
    };
    apply_persisted_mode(&mut cfg.mode, &device_mode, now, catalog)?;
    apply_output_effects(cfg, &persisted.effects.outputs, now, catalog)
}


/// Two modes select the same effect and store the same parameters.
pub open spec fn mode_equiv(a: ModeView, b: ModeView) -> bool {
    saved_selection(a) == saved_selection(b) && a.params == b.params
}

/// Two segments are the same but for revisions and start times.
pub open spec fn segment_equiv(a: SegmentView, b: SegmentView) -> bool {
    &&& a.id == b.id
    &&& a.name == b.name
    &&& a.segment_type == b.segment_type
    &&& a.leds_count == b.leds_count
    &&& a.matrix == b.matrix
    &&& a.brightness == b.brightness
    &&& mode_equiv(a.mode, b.mode)
}

/// Two outputs are the same but for revisions and start times.
pub open spec fn output_equiv(a: OutputView, b: OutputView) -> bool {
    &&& a.id == b.id
    &&& a.name == b.name
    &&& a.output_type == b.output_type
    &&& a.leds_count == b.leds_count
    &&& a.matrix == b.matrix
    &&& a.capabilities == b.capabilities
    &&& a.brightness == b.brightness
    &&& mode_equiv(a.mode, b.mode)
    &&& a.segments.len() == b.segments.len()
    &&& forall|j: int| 0 <= j < a.segments.len() ==> segment_equiv(#[trigger] a.segments[j], b.segments[j])
}

/// Two devices are the same but for revisions and start times.
pub open spec fn device_equiv(a: DeviceView, b: DeviceView) -> bool {
    &&& a.brightness == b.brightness
    &&& mode_equiv(a.mode, b.mode)
    &&& a.outputs.len() == b.outputs.len()
    &&& forall|i: int| 0 <= i < a.outputs.len() ==> output_equiv(#[trigger] a.outputs[i], b.outputs[i])
}

/// No two segments share an id.
pub open spec fn segment_ids_unique(segs: Seq<SegmentView>) -> bool {
    forall|a: int, b: int| 0 <= a < b < segs.len() ==> #[trigger] segs[a].id != #[trigger] segs[b].id
}

/// No two outputs share an id, and no two segments of an output do.
pub open spec fn ids_unique(d: DeviceView) -> bool {
    &&& forall|a: int, b: int| 0 <= a < b < d.outputs.len() ==> #[trigger] d.outputs[a].id != #[trigger] d.outputs[b].id
    &&& forall|i: int| 0 <= i < d.outputs.len() ==> segment_ids_unique(#[trigger] d.outputs[i].segments)
}

/// A mode that selects an effect stores parameters for it.
pub open spec fn selection_stored(m: ModeView) -> bool {
    m.active matches Some(a) ==> m.params.contains_key(a.0)
}

/// Every scope that selects an effect stores parameters for it.
pub open spec fn selections_stored(d: DeviceView) -> bool {
    &&& selection_stored(d.mode)
    &&& forall|i: int| 0 <= i < d.outputs.len() ==> selection_stored(#[trigger] d.outputs[i].mode)
        && forall|j: int| 0 <= j < d.outputs[i].segments.len() ==> selection_stored(#[trigger] d.outputs[i].segments[j].mode)
}

/// A saved layout that a linear, editable output accepts again.
pub open spec fn layout_accepted(o: OutputView, defs: Seq<SegmentDefinition>) -> bool {
    o.output_type == SegmentType::Linear && o.capabilities.editable ==> {
        &&& first_definition_error(o.capabilities, o.id, defs) is None
        &&& total_error(o, leds_total(defs)) is None
    }
}

proof fn lemma_mode_round_trip(t: ModeView, m: ModeView, now: u64, catalog: EffectCatalog)
    requires
        selection_stored(m),
    ensures
        mode_restored(t, saved_selection(m), m.params, now, catalog).1 is None,
        mode_equiv(mode_restored(t, saved_selection(m), m.params, now, catalog).0, m),
{
}

/// Two segments agree in everything but brightness and mode.
pub open spec fn segment_shape(a: SegmentView, b: SegmentView) -> bool {
    &&& a.id == b.id
    &&& a.name == b.name
    &&& a.segment_type == b.segment_type
    &&& a.leds_count == b.leds_count
    &&& a.matrix == b.matrix
}

/// Two outputs agree in everything but brightness and modes: the same port, and the
/// same segments one for one.
pub open spec fn output_shape(a: OutputView, b: OutputView) -> bool {
    &&& a.id == b.id
    &&& a.name == b.name
    &&& a.output_type == b.output_type
    &&& a.leds_count == b.leds_count
    &&& a.matrix == b.matrix
    &&& a.capabilities == b.capabilities
    &&& a.segments.len() == b.segments.len()
    &&& forall|j: int| 0 <= j < a.segments.len() ==> segment_shape(#[trigger] a.segments[j], b.segments[j])
}

/// Two devices have the same outputs and segments one for one; brightness, selections
/// and parameters may differ.
pub open spec fn same_layout(a: DeviceView, b: DeviceView) -> bool {
    &&& a.outputs.len() == b.outputs.len()
    &&& forall|i: int| 0 <= i < a.outputs.len() ==> output_shape(#[trigger] a.outputs[i], b.outputs[i])
}

proof fn lemma_laid_out_shape(es: Seq<OutputView>, ds: Seq<OutputView>)
    requires
        es.len() == ds.len(),
        forall|i: int| 0 <= i < es.len() ==> output_shape(#[trigger] es[i], ds[i]),
    ensures
        laid_out(es).len() == laid_out(ds).len(),
        forall|k: int| 0 <= k < laid_out(es).len() ==> output_shape(#[trigger] laid_out(es)[k], laid_out(ds)[k]),
    decreases es.len(),
{
    if es.len() > 0 {
        let n = es.len() - 1;
        assert forall|i: int| 0 <= i < es.drop_last().len() implies output_shape(#[trigger] es.drop_last()[i], ds.drop_last()[i]) by {
            assert(output_shape(es[i], ds[i]));
        }
        lemma_laid_out_shape(es.drop_last(), ds.drop_last());
        assert(output_shape(es[n], ds[n]));
        assert forall|k: int| 0 <= k < laid_out(es).len() implies output_shape(#[trigger] laid_out(es)[k], laid_out(ds)[k]) by {
            if k < laid_out(es.drop_last()).len() {
                assert(laid_out(es)[k] == laid_out(es.drop_last())[k]);
                assert(laid_out(ds)[k] == laid_out(ds.drop_last())[k]);
            }
        }
    }
}

proof fn lemma_seg_index_unique(segs: Seq<SegmentView>, k: int)
    requires
        segment_ids_unique(segs),
        0 <= k < segs.len(),
    ensures
        seg_index(segs, segs[k].id) == k,
{
    crate::scope::lemma_seg_index(segs, segs[k].id);
    let i = seg_index(segs, segs[k].id);
    if i != k {
        if i < k {
            assert(segs[i].id != segs[k].id);
        } else {
            assert(segs[k].id != segs[k].id);
        }
    }
}

proof fn lemma_out_index_unique(outs: Seq<OutputView>, k: int)
    requires
        forall|a: int, b: int| 0 <= a < b < outs.len() ==> #[trigger] outs[a].id != #[trigger] outs[b].id,
        0 <= k < outs.len(),
    ensures
        out_index(outs, outs[k].id) == k,
{
    crate::scope::lemma_out_index(outs, outs[k].id);
    let i = out_index(outs, outs[k].id);
    if i != k {
        if i < k {
            assert(outs[i].id != outs[k].id);
        }
    }
}

/// Rebuilding the segments from definitions that describe them changes nothing.
proof fn lemma_rebuild_same(segs: Seq<SegmentView>, defs: Seq<SegmentDefinition>)
    requires
        defs_match(defs, segs),
        segment_ids_unique(segs),
    ensures
        rebuilt_segments(segs, defs) == segs,
{
    assert forall|j: int| 0 <= j < defs.len() implies #[trigger] rebuilt_segments(segs, defs)[j] == segs[j] by {
        assert(def_matches(defs[j], segs[j]));
        assert forall|b: int| j < b < segs.len() implies #[trigger] segs[b].id != defs[j].id@ by {
            assert(segs[j].id != segs[b].id);
        }
        crate::segments::lemma_last_seg_index_at(segs, defs[j].id@, j);
        assert forall|i: int| 0 <= i < j implies #[trigger] defs[i].id@ != defs[j].id@ by {
            assert(def_matches(defs[i], segs[i]));
            assert(segs[i].id != segs[j].id);
        }
    }
    assert(rebuilt_segments(segs, defs) =~= segs);
}


proof fn lemma_laid_out(outs: Seq<OutputView>)
    ensures
        laid_out(outs).len() <= outs.len(),
        forall|k: int| 0 <= k < laid_out(outs).len() ==> (#[trigger] laid_out(outs)[k]).segments.len() > 0
            && exists|i: int| 0 <= i < outs.len() && outs[i] == laid_out(outs)[k],
    decreases outs.len(),
{
    if outs.len() > 0 {
        let t = outs.drop_last();
        lemma_laid_out(t);
        assert forall|k: int| 0 <= k < laid_out(outs).len() implies (#[trigger] laid_out(outs)[k]).segments.len() > 0
            && exists|i: int| 0 <= i < outs.len() && outs[i] == laid_out(outs)[k] by {
            if k < laid_out(t).len() {
                assert(laid_out(outs)[k] == laid_out(t)[k]);
                let i = choose|i: int| 0 <= i < t.len() && t[i] == laid_out(t)[k];
                assert(outs[i] == t[i]);
            } else {
                assert(laid_out(outs)[k] == outs[outs.len() - 1]);
            }
        }
    }
}

/// Restoring the layouts that a device saved, where it accepts them, changes nothing.
proof fn lemma_layout_round_trip(d: DeviceView, layout: Seq<(String, PersistedOutputLayout)>, n: int)
    requires
        ids_unique(d),
        0 <= n <= layout.len(),
        layout.len() == laid_out(d.outputs).len(),
        forall|k: int| 0 <= k < layout.len() ==> (#[trigger] layout[k]).0@ == laid_out(d.outputs)[k].id
            && defs_match(layout[k].1.segments@, laid_out(d.outputs)[k].segments)
            && layout_accepted(laid_out(d.outputs)[k], layout[k].1.segments@),
    ensures
        layout_restored(d, layout.take(n)) == d,
    decreases n,
{
    if n > 0 {
        let lay = laid_out(d.outputs);
        lemma_layout_round_trip(d, layout, n - 1);
        assert(layout.take(n).drop_last() =~= layout.take(n - 1));
        let k = n - 1;
        assert(layout.take(n).last() == layout[k]);
        lemma_laid_out(d.outputs);
        let o = lay[k];
        assert(o.segments.len() > 0);
        let i = choose|i: int| 0 <= i < d.outputs.len() && d.outputs[i] == o;
        lemma_out_index_unique(d.outputs, i);
        assert(segment_ids_unique(d.outputs[i].segments));
        lemma_rebuild_same(o.segments, layout[k].1.segments@);
        assert(d.outputs.update(i, o.with_segments(o.segments)) =~= d.outputs);
    }
}


proof fn lemma_segments_round_trip(
    ts: Seq<SegmentView>,
    segs: Seq<SegmentView>,
    ps: Seq<PersistedSegmentEffectsConfig>,
    n: int,
    now: u64,
    catalog: EffectCatalog,
)
    requires
        segment_ids_unique(segs),
        ps.len() == segs.len(),
        ts.len() == segs.len(),
        0 <= n <= ps.len(),
        forall|j: int| 0 <= j < segs.len() ==> segment_saved(#[trigger] ps[j], segs[j]),
        forall|j: int| 0 <= j < segs.len() ==> selection_stored(#[trigger] segs[j].mode),
        forall|j: int| 0 <= j < segs.len() ==> segment_shape(#[trigger] ts[j], segs[j]),
    ensures
        ({
            let r = segments_restored(ts, ps.take(n), now, catalog);
            &&& r.len() == segs.len()
            &&& forall|j: int| 0 <= j < n ==> segment_equiv(#[trigger] r[j], segs[j])
            &&& forall|j: int| n <= j < segs.len() ==> #[trigger] r[j] == ts[j]
        }),
    decreases n,
{
    if n > 0 {
        lemma_segments_round_trip(ts, segs, ps, n - 1, now, catalog);
        assert(ps.take(n).drop_last() =~= ps.take(n - 1));
        assert(ps.take(n).last() == ps[n - 1]);
        let prev = segments_restored(ts, ps.take(n - 1), now, catalog);
        assert forall|j: int| 0 <= j < prev.len() implies (#[trigger] prev[j]).id == segs[j].id by {
            if j < n - 1 {
                assert(segment_equiv(prev[j], segs[j]));
            } else {
                assert(segment_shape(ts[j], segs[j]));
            }
        }
        crate::scope::lemma_seg_index_same_ids(prev, segs, ps[n - 1].id@);
        assert(segment_saved(ps[n - 1], segs[n - 1]));
        lemma_seg_index_unique(segs, n - 1);
        assert(selection_stored(segs[n - 1].mode));
        assert(segment_shape(ts[n - 1], segs[n - 1]));
        lemma_mode_round_trip(ts[n - 1].mode, segs[n - 1].mode, now, catalog);
    } else {
        assert(ps.take(0) =~= Seq::<PersistedSegmentEffectsConfig>::empty());
    }
}

proof fn lemma_outputs_round_trip(
    t: DeviceView,
    d: DeviceView,
    ps: Seq<PersistedOutputEffectsConfig>,
    n: int,
    now: u64,
    catalog: EffectCatalog,
)
    requires
        ids_unique(d),
        selections_stored(d),
        same_layout(t, d),
        ps.len() == d.outputs.len(),
        0 <= n <= ps.len(),
        forall|i: int| 0 <= i < d.outputs.len() ==> output_saved(#[trigger] ps[i], d.outputs[i]),
    ensures
        ({
            let (r, e) = outputs_restored(t, ps.take(n), now, catalog);
            &&& e is None
            &&& r.brightness == t.brightness
            &&& r.mode == t.mode
            &&& r.outputs.len() == d.outputs.len()
            &&& forall|i: int| 0 <= i < n ==> output_equiv(#[trigger] r.outputs[i], d.outputs[i])
            &&& forall|i: int| n <= i < d.outputs.len() ==> #[trigger] r.outputs[i] == t.outputs[i]
        }),
    decreases n,
{
    if n > 0 {
        lemma_outputs_round_trip(t, d, ps, n - 1, now, catalog);
        assert(ps.take(n).drop_last() =~= ps.take(n - 1));
        assert(ps.take(n).last() == ps[n - 1]);
        let prev = outputs_restored(t, ps.take(n - 1), now, catalog).0;
        assert forall|j: int| 0 <= j < prev.outputs.len() implies (#[trigger] prev.outputs[j]).id == d.outputs[j].id by {
            if j < n - 1 {
                assert(output_equiv(prev.outputs[j], d.outputs[j]));
            } else {
                assert(output_shape(t.outputs[j], d.outputs[j]));
            }
        }
        crate::scope::lemma_out_index_same_ids(prev.outputs, d.outputs, ps[n - 1].id@);
        let o = d.outputs[n - 1];
        let to = t.outputs[n - 1];
        assert(output_shape(to, o));
        assert(output_saved(ps[n - 1], o));
        lemma_out_index_unique(d.outputs, n - 1);
        assert(selection_stored(o.mode));
        lemma_mode_round_trip(to.mode, o.mode, now, catalog);
        assert(segment_ids_unique(o.segments));
        assert forall|j: int| 0 <= j < o.segments.len() implies selection_stored(#[trigger] o.segments[j].mode) by {}
        assert forall|j: int| 0 <= j < o.segments.len() implies segment_shape(#[trigger] to.segments[j], o.segments[j]) by {}
        lemma_segments_round_trip(to.segments, o.segments, ps[n - 1].segments@, o.segments.len() as int, now, catalog);
        assert(ps[n - 1].segments@.take(o.segments.len() as int) =~= ps[n - 1].segments@);
    } else {
        assert(ps.take(0) =~= Seq::<PersistedOutputEffectsConfig>::empty());
    }
}

proof fn lemma_layout_refl(d: DeviceView)
    ensures
        same_layout(d, d),
{
}

proof fn lemma_with_keeps_layout(d: DeviceView, k: ScopeKey, m: ModeView, b: u8)
    requires
        d.has_scope(k),
    ensures
        same_layout(d.with_mode_at(k, m), d),
        same_layout(d.with_brightness_at(k, b), d),
        same_layout(d.children_inherit(k), d),
{
    crate::scope::lemma_out_index(d.outputs, k.output_id());
    if k.level() == 2 {
        crate::scope::lemma_seg_index(d.outputs[d.out_of(k)].segments, k.segment_id());
    }
    if k.level() >= 1 {
        let i = d.out_of(k);
        let o = d.outputs[i];
        assert forall|j: int| 0 <= j < o.segments.len() implies segment_shape(#[trigger] o.segments[j], o.segments[j]) by {}
    }
    match k {
        ScopeKey::Output(oid) => {
            let i = out_index(d.outputs, oid);
            if i >= 0 {
                let o = d.outputs[i];
                let o2 = o.segments_inherit();
                assert(output_shape(o2, o));
            }
        },
        _ => {},
    }
}

/// Selecting an effect, storing a brightness or updating parameters at any scope, whether
/// it succeeds or not, leaves the outputs and segments as they were; so a saved
/// configuration restores onto the device after any such changes
/// (`law_restore_after_save`).
pub proof fn law_scope_changes_keep_layout(
    d: DeviceView,
    k: ScopeKey,
    effect_id: Option<Seq<char>>,
    now: u64,
    b: u8,
    params: Map<Seq<char>, String>,
    catalog: EffectCatalog,
    r: Result<(), String>,
    d2: DeviceView,
)
    ensures
        set_effect_outcome(d, k, effect_id, now, catalog, r, d2) ==> same_layout(d2, d),
        set_brightness_outcome(d, k, b, r, d2) ==> same_layout(d2, d),
        update_params_outcome(d, k, params, catalog, r, d2) ==> same_layout(d2, d),
{
    lemma_layout_refl(d);
    if d.has_scope(k) {
        let m = d.mode_at(k, k.level());
        lemma_with_keeps_layout(d, k, m, b);
        if let Some(id) = effect_id {
            let m1 = m.select(id, continued_start(d, k, id, now, catalog), catalog);
            let d1 = d.with_mode_at(k, m1);
            lemma_with_keeps_layout(d, k, m1, b);
            lemma_with_mode_shape(d, k, m1);
            lemma_same_shape_locates(d, d1, k);
            lemma_with_keeps_layout(d1, k, m1, b);
        } else {
            lemma_with_keeps_layout(d, k, m.inherit(), b);
        }
        if update_params_outcome(d, k, params, catalog, r, d2) && r is Ok {
            let m2 = choose|m2: ModeView| #[trigger] merged(update_base(d, k, catalog), m2, update_target(d, k), params, catalog)
                && d2 == d.with_mode_at(k, m2);
            lemma_with_keeps_layout(d, k, m2, b);
        }
    }
}

/// What a device saves is what any device the same but for revisions and start times saves.
proof fn lemma_saved_equiv(p: PersistedDeviceConfig, a: DeviceView, b: DeviceView)
    requires
        device_saved(p, b),
        device_equiv(a, b),
    ensures
        device_saved(p, a),
{
    assert forall|i: int| 0 <= i < a.outputs.len() implies output_shape(#[trigger] a.outputs[i], b.outputs[i]) by {
        assert(output_equiv(a.outputs[i], b.outputs[i]));
        assert forall|j: int| 0 <= j < a.outputs[i].segments.len() implies segment_shape(#[trigger] a.outputs[i].segments[j], b.outputs[i].segments[j]) by {
            assert(segment_equiv(a.outputs[i].segments[j], b.outputs[i].segments[j]));
        }
    }
    lemma_laid_out_shape(a.outputs, b.outputs);
    let la = laid_out(a.outputs);
    let lb = laid_out(b.outputs);
    assert forall|k: int| 0 <= k < la.len() implies (#[trigger] p.device.layout@[k]).0@ == la[k].id
        && defs_match(p.device.layout@[k].1.segments@, la[k].segments) by {
        assert(output_shape(la[k], lb[k]));
        assert(defs_match(p.device.layout@[k].1.segments@, lb[k].segments));
        assert forall|j: int| 0 <= j < p.device.layout@[k].1.segments@.len() implies def_matches(#[trigger] p.device.layout@[k].1.segments@[j], la[k].segments[j]) by {
            assert(def_matches(p.device.layout@[k].1.segments@[j], lb[k].segments[j]));
            assert(segment_shape(la[k].segments[j], lb[k].segments[j]));
        }
    }
    assert forall|i: int| 0 <= i < a.outputs.len() implies output_saved(#[trigger] p.effects.outputs@[i], a.outputs[i]) by {
        let oa = a.outputs[i];
        let ob = b.outputs[i];
        assert(output_equiv(oa, ob));
        assert(output_saved(p.effects.outputs@[i], ob));
        assert forall|j: int| 0 <= j < oa.segments.len() implies segment_saved(#[trigger] p.effects.outputs@[i].segments@[j], oa.segments[j]) by {
            assert(segment_equiv(oa.segments[j], ob.segments[j]));
            assert(segment_saved(p.effects.outputs@[i].segments@[j], ob.segments[j]));
        }
    }
}

/// Restoring what a device saved gives the device back, but for revisions and start
/// times: the same layout, brightness, selections and parameters in every scope. This
/// holds where ids are unique, every selected effect has stored parameters, and the
/// saved layouts are accepted again; it holds whatever brightness, selections and
/// parameters the device was given after saving, as long as its outputs and segments
/// are the same. Saving the restored device saves the same configuration again.
pub proof fn law_restore_after_save(e: DeviceView, d: DeviceView, p: PersistedDeviceConfig, now: u64, catalog: EffectCatalog)
    requires
        device_saved(p, d),
        ids_unique(d),
        selections_stored(d),
        forall|k: int| 0 <= k < p.device.layout@.len() ==> layout_accepted(
            #[trigger] laid_out(d.outputs)[k],
            p.device.layout@[k].1.segments@,
        ),
        same_layout(e, d),
    ensures
        persisted_restored(e, p, now, catalog).1 is None,
        device_equiv(persisted_restored(e, p, now, catalog).0, d),
        device_saved(p, persisted_restored(e, p, now, catalog).0),
{
    let e0 = DeviceView { brightness: p.effects.brightness, ..e };
    let layout = p.device.layout@;
    lemma_laid_out_shape(e0.outputs, d.outputs);
    assert(ids_unique(e0)) by {
        assert forall|a: int, b: int| 0 <= a < b < e0.outputs.len() implies #[trigger] e0.outputs[a].id != #[trigger] e0.outputs[b].id by {
            assert(output_shape(e0.outputs[a], d.outputs[a]));
            assert(output_shape(e0.outputs[b], d.outputs[b]));
        }
        assert forall|i: int| 0 <= i < e0.outputs.len() implies segment_ids_unique(#[trigger] e0.outputs[i].segments) by {
            assert(output_shape(e0.outputs[i], d.outputs[i]));
            assert(segment_ids_unique(d.outputs[i].segments));
            assert forall|a: int, b: int| 0 <= a < b < e0.outputs[i].segments.len() implies #[trigger] e0.outputs[i].segments[a].id
                != #[trigger] e0.outputs[i].segments[b].id by {
                assert(segment_shape(e0.outputs[i].segments[a], d.outputs[i].segments[a]));
                assert(segment_shape(e0.outputs[i].segments[b], d.outputs[i].segments[b]));
            }
        }
    }
    assert forall|k: int| 0 <= k < layout.len() implies (#[trigger] layout[k]).0@ == laid_out(e0.outputs)[k].id
        && defs_match(layout[k].1.segments@, laid_out(e0.outputs)[k].segments)
        && layout_accepted(laid_out(e0.outputs)[k], layout[k].1.segments@) by {
        assert(layout_accepted(laid_out(d.outputs)[k], layout[k].1.segments@));
        let eo = laid_out(e0.outputs)[k];
        let od = laid_out(d.outputs)[k];
        assert(output_shape(eo, od));
        assert(defs_match(layout[k].1.segments@, od.segments));
        assert forall|j: int| 0 <= j < layout[k].1.segments@.len() implies def_matches(#[trigger] layout[k].1.segments@[j], eo.segments[j]) by {
            assert(def_matches(layout[k].1.segments@[j], od.segments[j]));
            assert(segment_shape(eo.segments[j], od.segments[j]));
        }
    }
    lemma_layout_round_trip(e0, layout, layout.len() as int);
    assert(layout.take(layout.len() as int) =~= layout);
    lemma_mode_round_trip(e.mode, d.mode, now, catalog);
    let e2 = DeviceView { mode: mode_restored(e.mode, saved_selection(d.mode), d.mode.params, now, catalog).0, ..e0 };
    let ps = p.effects.outputs@;
    assert(same_layout(e2, d));
    lemma_outputs_round_trip(e2, d, ps, ps.len() as int, now, catalog);
    assert(ps.take(ps.len() as int) =~= ps);
    lemma_saved_equiv(p, persisted_restored(e, p, now, catalog).0, d);
}


/// A character kept in a device's file name: an ASCII letter or digit, `-` or `_`.
pub open spec fn file_name_char(c: char) -> bool {
    ('a' <= c <= 'z') || ('A' <= c <= 'Z') || ('0' <= c <= '9') || c == '-' || c == '_'
}

/// The file name stem of a device's saved configuration: its id with every other
/// character replaced by `_`.
pub fn device_file_stem(device_id: &str) -> (r: String)
    ensures
        r@ == device_id@.map_values(|c: char| if file_name_char(c) { c } else { '_' }),
{
    let chars = crate::text::chars_of(device_id);
    let mut r = crate::text::owned("");
    proof {
        reveal_strlit("");
    }
    let mut i: usize = 0;
    while i < chars.len()
        invariant
            chars@ == device_id@,
            i <= chars@.len(),
            r@ == device_id@.take(i as int).map_values(|c: char| if file_name_char(c) { c } else { '_' }),
        decreases chars.len() - i,
    {
        let c = chars[i];
        let keep = ('a' <= c && c <= 'z') || ('A' <= c && c <= 'Z') || ('0' <= c && c <= '9') || c == '-' || c == '_';
        let ghost before = r@;
        if keep {
            let one = device_id.substring_char(i, i + 1);
            assert(one@ =~= seq![c]);
            r.append(one);
        } else {
            r.append("_");
            proof {
                reveal_strlit("_");
            }
            assert("_"@ =~= seq!['_']);
        }
        proof {
            assert(r@ =~= before + seq![if file_name_char(c) { c } else { '_' }]);
            assert(r@ =~= device_id@.take(i as int + 1).map_values(|c: char| if file_name_char(c) { c } else { '_' }));
        }
        i = i + 1;
    }
    proof {
        assert(device_id@.take(i as int) =~= device_id@);
    }
    r
}

} // verus!
