//! Switching the effect of a scope and waiting until every render target that changes
//! effect reports that the new effect is ready.
use vstd::prelude::*;
use crate::params::EffectCatalog;
use crate::scope::{
    DeviceConfig, DeviceView, OutputConfig, OutputView, Scope, ScopeKey, has_resolved_effect, lemma_out_index,
    lemma_seg_index, resolve_effect_for_scope, set_effect_outcome, set_scope_effect, segment_views,
};
use crate::segments::{output_missing, seg_leds_total, segments_cover};
use crate::layout::SegmentType;
use crate::text::{concat3, owned, str_equal};

verus! {

/// Milliseconds a switch may take until the new effect reports ready.
pub const EFFECT_READY_TIMEOUT_MS: u64 = 5000;

/// Extra milliseconds the waiting side allows beyond the render side's timeout.
pub const EFFECT_READY_TIMEOUT_GRACE_MS: u64 = 250;

/// A render target: a whole output, or one segment of it.
#[derive(Debug)]
pub struct SwitchTarget {
    pub output_id: String,
    pub segment_id: Option<String>,
}

/// A render target named by id sequences.
pub type TargetKey = (Seq<char>, Option<Seq<char>>);

impl View for SwitchTarget {
    type V = (Seq<char>, Option<Seq<char>>);

    open spec fn view(&self) -> (Seq<char>, Option<Seq<char>>) {
        (self.output_id@, match self.segment_id {
            Some(s) => Some(s@),
            None => None,
        })
    }
}

/// The scope a render target is rendered as.
pub open spec fn target_scope(t: (Seq<char>, Option<Seq<char>>)) -> ScopeKey {
    match t.1 {
        Some(s) => ScopeKey::Segment(t.0, s),
        None => ScopeKey::Output(t.0),
    }
}

/// An output is rendered segment by segment when it is linear and its segments cover
/// exactly its LEDs (at least one).
pub open spec fn uses_segments(o: OutputView) -> bool {
    &&& o.output_type == SegmentType::Linear
    &&& o.segments.len() > 0
    &&& seg_leds_total(o.segments) == if o.leds_count == 0 { 1 } else { o.leds_count as nat }
}

/// The render targets of one output.
pub open spec fn output_targets(o: OutputView) -> Seq<(Seq<char>, Option<Seq<char>>)> {
    if uses_segments(o) {
        Seq::new(o.segments.len(), |j: int| (o.id, Some(o.segments[j].id)))
    } else {
        seq![(o.id, None::<Seq<char>>)]
    }
}

/// The render targets of a list of outputs, in order.
pub open spec fn targets_of(outs: Seq<OutputView>) -> Seq<(Seq<char>, Option<Seq<char>>)>
    decreases outs.len(),
{
    if outs.len() == 0 {
        Seq::empty()
    } else {
        targets_of(outs.drop_last()) + output_targets(outs.last())
    }
}

/// The render targets that switching scope `k` concerns.
pub open spec fn scope_target_keys(d: DeviceView, k: ScopeKey) -> Seq<(Seq<char>, Option<Seq<char>>)> {
    match k {
        ScopeKey::Device => targets_of(d.outputs),
        ScopeKey::Output(o) => output_targets(d.outputs[d.out_of(k)]),
        ScopeKey::Segment(o, s) => seq![(o, Some(s))],
    }
}

/// Whether an output is rendered segment by segment.
pub fn use_segments_for_output(out: &OutputConfig) -> (b: bool)
    ensures
        b == uses_segments(out@),
{
    if out.output_type != SegmentType::Linear || out.segments.len() == 0 {
        return false;
    }
    let out_len = if out.leds_count == 0 { 1 } else { out.leds_count };
    segments_cover(&out.segments, out_len)
}

/// Appends the render targets of one output.
fn push_output_targets(out: &OutputConfig, targets: &mut Vec<SwitchTarget>)
    ensures
        target_views(final(targets)@) == target_views(old(targets)@) + output_targets(out@),
{
    let ghost start = target_views(targets@);
    if use_segments_for_output(out) {
        let mut j: usize = 0;
        while j < out.segments.len()
            invariant
                j <= out.segments@.len(),
                uses_segments(out@),
                target_views(targets@) == start + output_targets(out@).take(j as int),
            decreases out.segments.len() - j,
        {
            let ghost tv = target_views(targets@);
            targets.push(SwitchTarget { output_id: out.id.clone(), segment_id: Some(out.segments[j].id.clone()) });
            proof {
                let ot = output_targets(out@);
                assert(ot[j as int] == (out.id@, Some(out.segments@[j as int].id@)));
                assert(target_views(targets@) =~= tv.push(ot[j as int]));
                assert(ot.take(j + 1) =~= ot.take(j as int).push(ot[j as int]));
                assert(target_views(targets@) =~= start + ot.take(j + 1));
            }
            j = j + 1;
        }
        proof {
            assert(output_targets(out@).take(j as int) =~= output_targets(out@));
        }
    } else {
        targets.push(SwitchTarget { output_id: out.id.clone(), segment_id: None });
        proof {
            assert(target_views(targets@) =~= start + output_targets(out@));
        }
    }
}

/// The views of a list of targets.
pub open spec fn target_views(s: Seq<SwitchTarget>) -> Seq<(Seq<char>, Option<Seq<char>>)> {
    Seq::new(s.len(), |i: int| s[i]@)
}

/// The render targets that switching `scope` concerns; the scope must exist.
pub fn scope_targets(cfg: &DeviceConfig, scope: &Scope) -> (r: Result<Vec<SwitchTarget>, String>)
    ensures
        match r {
            Ok(t) => cfg@.has_scope(scope@) && target_views(t@) == scope_target_keys(cfg@, scope@),
            Err(e) => !cfg@.has_scope(scope@) && e@ == (if cfg@.out_of(scope@) < 0 {
                output_missing(scope@.output_id())
            } else {
                "Segment '"@ + scope@.segment_id() + "' not found"@
            }),
        },
{
    let mut targets: Vec<SwitchTarget> = Vec::new();
    match scope {
        Scope::Device => {
            let mut i: usize = 0;
            while i < cfg.outputs.len()
                invariant
                    i <= cfg.outputs@.len(),
                    target_views(targets@) == targets_of(cfg@.outputs.take(i as int)),
                decreases cfg.outputs.len() - i,
            {
                proof {
                    assert(cfg@.outputs.take(i + 1).drop_last() =~= cfg@.outputs.take(i as int));
                    assert(cfg@.outputs.take(i + 1).last() == cfg.outputs@[i as int]@);
                }
                push_output_targets(&cfg.outputs[i], &mut targets);
                i = i + 1;
            }
            proof {
                assert(cfg@.outputs.take(i as int) =~= cfg@.outputs);
            }
        },
        Scope::Output { output_id } => {
            match cfg.output(output_id.as_str()) {
                None => return Err(concat3("Output '", output_id.as_str(), "' not found")),
                Some(i) => {
                    proof {
                        lemma_out_index(cfg@.outputs, output_id@);
                        assert(target_views(targets@) =~= Seq::empty());
                    }
                    push_output_targets(&cfg.outputs[i], &mut targets);
                    proof {
                        assert(target_views(targets@) =~= scope_target_keys(cfg@, scope@));
                    }
                },
            }
        },
        Scope::Segment { output_id, segment_id } => {
            match cfg.output(output_id.as_str()) {
                None => return Err(concat3("Output '", output_id.as_str(), "' not found")),
                Some(i) => {
                    proof {
                        lemma_out_index(cfg@.outputs, output_id@);
                        assert(cfg@.outputs[i as int].segments == segment_views(cfg.outputs@[i as int].segments@));
                    }
                    let mut found = false;
                    let mut j: usize = 0;
                    let ghost segs = segment_views(cfg.outputs@[i as int].segments@);
                    while j < cfg.outputs[i].segments.len()
                        invariant
                            i < cfg.outputs@.len(),
                            j <= cfg.outputs@[i as int].segments@.len(),
                            segs == segment_views(cfg.outputs@[i as int].segments@),
                            found == exists|b: int| 0 <= b < j && #[trigger] segs[b].id == segment_id@,
                        decreases cfg.outputs[i as int].segments.len() - j,
                    {
                        proof {
                            assert(segs[j as int].id == cfg.outputs@[i as int].segments@[j as int].id@);
                        }
                        if str_equal(cfg.outputs[i].segments[j].id.as_str(), segment_id.as_str()) {
                            found = true;
                        }
                        j = j + 1;
                    }
                    proof {
                        lemma_seg_index(segs, segment_id@);
                        if seg_index_found(segs, segment_id@) {
                            assert(segs[crate::scope::seg_index(segs, segment_id@)].id == segment_id@);
                        }
                    }
                    if !found {
                        return Err(concat3("Segment '", segment_id.as_str(), "' not found"));
                    }
                    targets.push(SwitchTarget { output_id: output_id.clone(), segment_id: Some(segment_id.clone()) });
                    proof {
                        assert(target_views(targets@) =~= scope_target_keys(cfg@, scope@));
                    }
                },
            }
        },
    }
    Ok(targets)
}

/// Whether a segment lookup finds the id.
pub open spec fn seg_index_found(segs: Seq<crate::scope::SegmentView>, id: Seq<char>) -> bool {
    crate::scope::seg_index(segs, id) >= 0
}

/// The effect id and revision that target `t` runs, if any.
pub open spec fn target_effect(d: DeviceView, t: (Seq<char>, Option<Seq<char>>), catalog: EffectCatalog) -> Option<(Seq<char>, u64)> {
    let k = target_scope(t);
    if has_resolved_effect(d, k, catalog) {
        let m = d.mode_at(k, d.effect_origin(k));
        Some(((m.active->0).0, m.rev))
    } else {
        None
    }
}

/// What a target runs, as recorded before and after a switch: only targets that the
/// device renders are recorded.
pub open spec fn recorded_effect(d: DeviceView, t: (Seq<char>, Option<Seq<char>>), catalog: EffectCatalog) -> Option<(Seq<char>, u64)> {
    if targets_of(d.outputs).contains(t) {
        target_effect(d, t, catalog)
    } else {
        None
    }
}

/// A switch the caller waits for: the target must report `effect_id` at `origin_rev`.
#[derive(Debug)]
pub struct ExpectedSwitch {
    pub target: SwitchTarget,
    pub effect_id: String,
    pub origin_rev: u64,
}

/// The switches to wait for: each concerned target whose effect id changes and that
/// runs an effect afterwards, with what it runs afterwards; each target once.
pub open spec fn expected_switches(
    targets: Seq<(Seq<char>, Option<Seq<char>>)>,
    before: DeviceView,
    after: DeviceView,
    catalog: EffectCatalog,
) -> Map<(Seq<char>, Option<Seq<char>>), (Seq<char>, u64)> {
    Map::new(
        |t: (Seq<char>, Option<Seq<char>>)| targets.contains(t) && recorded_effect(after, t, catalog) is Some
            && match recorded_effect(before, t, catalog) {
                Some(b) => b.0 != (recorded_effect(after, t, catalog)->0).0,
                None => true,
            },
        |t: (Seq<char>, Option<Seq<char>>)| recorded_effect(after, t, catalog)->0,
    )
}


/// An `Ok` value dropped, an error kept.
pub open spec fn drop_ok<T>(r: Result<T, String>) -> Result<(), String> {
    match r {
        Ok(_) => Ok(()),
        Err(e) => Err(e),
    }
}

/// `v` lists the entries of `m`, each key once.
pub open spec fn lists_switches(v: Seq<ExpectedSwitch>, m: Map<(Seq<char>, Option<Seq<char>>), (Seq<char>, u64)>) -> bool {
    &&& forall|i: int, j: int| 0 <= i < j < v.len() ==> (#[trigger] v[i]).target@ != (#[trigger] v[j]).target@
    &&& forall|i: int| 0 <= i < v.len() ==> m.contains_key((#[trigger] v[i]).target@)
        && m[v[i].target@] == (v[i].effect_id@, v[i].origin_rev)
    &&& forall|t: (Seq<char>, Option<Seq<char>>)| #[trigger] m.contains_key(t) ==> exists|i: int| 0 <= i < v.len() && (#[trigger] v[i]).target@ == t
}

/// All render targets of the device, in order.
fn device_targets(cfg: &DeviceConfig) -> (r: Vec<SwitchTarget>)
    ensures
        target_views(r@) == targets_of(cfg@.outputs),
{
    let mut targets: Vec<SwitchTarget> = Vec::new();
    let mut i: usize = 0;
    while i < cfg.outputs.len()
        invariant
            i <= cfg.outputs@.len(),
            target_views(targets@) == targets_of(cfg@.outputs.take(i as int)),
        decreases cfg.outputs.len() - i,
    {
        proof {
            assert(cfg@.outputs.take(i + 1).drop_last() =~= cfg@.outputs.take(i as int));
            assert(cfg@.outputs.take(i + 1).last() == cfg.outputs@[i as int]@);
        }
        push_output_targets(&cfg.outputs[i], &mut targets);
        i = i + 1;
    }
    proof {
        assert(cfg@.outputs.take(i as int) =~= cfg@.outputs);
    }
    targets
}

/// Whether two targets name the same output and segment.
fn same_target(a: &SwitchTarget, b: &SwitchTarget) -> (r: bool)
    ensures
        r == (a@ == b@),
{
    if !str_equal(a.output_id.as_str(), b.output_id.as_str()) {
        return false;
    }
    match (&a.segment_id, &b.segment_id) {
        (None, None) => true,
        (Some(x), Some(y)) => str_equal(x.as_str(), y.as_str()),
        _ => false,
    }
}

/// The scope a target is rendered as.
fn scope_of_target(t: &SwitchTarget) -> (s: Scope)
    ensures
        s@ == target_scope(t@),
{
    match &t.segment_id {
        Some(g) => Scope::Segment { output_id: t.output_id.clone(), segment_id: g.clone() },
        None => Scope::Output { output_id: t.output_id.clone() },
    }
}

/// What a target runs, as recorded: its effect id and revision.
fn recorded_effect_now(cfg: &DeviceConfig, port: &str, all: &Vec<SwitchTarget>, t: &SwitchTarget, catalog: &EffectCatalog) -> (r: Option<(String, u64)>)
    requires
        cfg.wf(),
        catalog.wf(),
        target_views(all@) == targets_of(cfg@.outputs),
    ensures
        match (r, recorded_effect(cfg@, t@, *catalog)) {
            (Some(x), Some(y)) => x.0@ == y.0 && x.1 == y.1,
            (None, None) => true,
            _ => false,
        },
{
    let mut present = false;
    let mut i: usize = 0;
    while i < all.len()
        invariant
            i <= all@.len(),
            present == exists|b: int| 0 <= b < i && #[trigger] target_views(all@)[b] == t@,
        decreases all.len() - i,
    {
        proof {
            assert(target_views(all@)[i as int] == all@[i as int]@);
        }
        if same_target(&all[i], t) {
            present = true;
        }
        i = i + 1;
    }
    if !present {
        return None;
    }
    let scope = scope_of_target(t);
    match resolve_effect_for_scope(cfg, port, &scope, catalog) {
        Some(res) => Some((res.effect_id, res.origin_rev)),
        None => None,
    }
}

/// Selects `effect_id` at `scope` (as `set_scope_effect` does) and lists the switches
/// to wait for: each concerned target whose effect id changes, with what it runs now.
pub fn prepare_switch(
    cfg: &mut DeviceConfig,
    port: &str,
    scope: &Scope,
    effect_id: &str,
    now: u64,
    catalog: &EffectCatalog,
) -> (r: Result<Vec<ExpectedSwitch>, String>)
    requires
        old(cfg).wf(),
        catalog.wf(),
    ensures
        final(cfg).wf(),
        set_effect_outcome(old(cfg)@, scope@, Some(effect_id@), now, *catalog, drop_ok(r), final(cfg)@),
        r matches Ok(v) ==> lists_switches(
            v@,
            expected_switches(scope_target_keys(old(cfg)@, scope@), old(cfg)@, final(cfg)@, *catalog),
        ),
{
    let targets = scope_targets(cfg, scope)?;
    let ghost before = cfg@;
    let all_before = device_targets(cfg);
    let mut before_vals: Vec<Option<(String, u64)>> = Vec::new();
    let mut i: usize = 0;
    while i < targets.len()
        invariant
            cfg.wf(),
            catalog.wf(),
            cfg@ == before,
            target_views(all_before@) == targets_of(cfg@.outputs),
            i <= targets@.len(),
            before_vals@.len() == i,
            forall|a: int| 0 <= a < i ==> match (#[trigger] before_vals@[a], recorded_effect(before, targets@[a]@, *catalog)) {
                (Some(x), Some(y)) => x.0@ == y.0 && x.1 == y.1,
                (None, None) => true,
                _ => false,
            },
        decreases targets.len() - i,
    {
        let v = recorded_effect_now(cfg, port, &all_before, &targets[i], catalog);
        before_vals.push(v);
        i = i + 1;
    }
    set_scope_effect(cfg, port, scope, Some(effect_id), now, catalog)?;
    let ghost after = cfg@;
    let all_after = device_targets(cfg);
    let ghost m = expected_switches(scope_target_keys(before, scope@), before, after, *catalog);
    let mut expected: Vec<ExpectedSwitch> = Vec::new();
    let mut i: usize = 0;
    while i < targets.len()
        invariant
            cfg.wf(),
            catalog.wf(),
            cfg@ == after,
            target_views(all_after@) == targets_of(cfg@.outputs),
            target_views(targets@) == scope_target_keys(before, scope@),
            m == expected_switches(scope_target_keys(before, scope@), before, after, *catalog),
            i <= targets@.len(),
            before_vals@.len() == targets@.len(),
            forall|a: int| 0 <= a < targets@.len() ==> match (#[trigger] before_vals@[a], recorded_effect(before, targets@[a]@, *catalog)) {
                (Some(x), Some(y)) => x.0@ == y.0 && x.1 == y.1,
                (None, None) => true,
                _ => false,
            },
            forall|a: int, b: int| 0 <= a < b < expected@.len() ==> (#[trigger] expected@[a]).target@ != (#[trigger] expected@[b]).target@,
            forall|a: int| 0 <= a < expected@.len() ==> m.contains_key((#[trigger] expected@[a]).target@)
                && m[expected@[a].target@] == (expected@[a].effect_id@, expected@[a].origin_rev),
            forall|a: int| 0 <= a < i && m.contains_key(#[trigger] targets@[a]@) ==> exists|b: int| 0 <= b < expected@.len()
                && (#[trigger] expected@[b]).target@ == targets@[a]@,
        decreases targets.len() - i,
    {
        let after_val = recorded_effect_now(cfg, port, &all_after, &targets[i], catalog);
        proof {
            assert(target_views(targets@)[i as int] == targets@[i as int]@);
            assert(scope_target_keys(before, scope@).contains(targets@[i as int]@));
        }
        if let Some((aid, arev)) = after_val {
            let changed = match &before_vals[i] {
                Some((bid, _)) => !str_equal(bid.as_str(), aid.as_str()),
                None => true,
            };
            if changed {
                let mut dup = false;
                let mut b: usize = 0;
                while b < expected.len()
                    invariant
                        b <= expected@.len(),
                        i < targets@.len(),
                        dup == exists|c: int| 0 <= c < b && (#[trigger] expected@[c]).target@ == targets@[i as int]@,
                    decreases expected.len() - b,
                {
                    if same_target(&expected[b].target, &targets[i]) {
                        dup = true;
                    }
                    b = b + 1;
                }
                if !dup {
                    let t = SwitchTarget {
                        output_id: targets[i].output_id.clone(),
                        segment_id: match &targets[i].segment_id {
                            Some(g) => Some(g.clone()),
                            None => None,
                        },
                    };
                    let ghost old_expected = expected@;
                    expected.push(ExpectedSwitch { target: t, effect_id: aid, origin_rev: arev });
                    proof {
                        assert(m.contains_key(targets@[i as int]@));
                        assert forall|a: int| 0 <= a < expected@.len() implies m.contains_key((#[trigger] expected@[a]).target@)
                            && m[expected@[a].target@] == (expected@[a].effect_id@, expected@[a].origin_rev) by {
                            if a < old_expected.len() {
                                assert(expected@[a] == old_expected[a]);
                            }
                        }
                        assert forall|a: int, c: int| 0 <= a < c < expected@.len() implies (#[trigger] expected@[a]).target@
                            != (#[trigger] expected@[c]).target@ by {
                            if c < old_expected.len() {
                                assert(expected@[a] == old_expected[a] && expected@[c] == old_expected[c]);
                            } else {
                                assert(expected@[a] == old_expected[a]);
                            }
                        }
                        assert forall|a: int| 0 <= a <= i && m.contains_key(#[trigger] targets@[a]@) implies exists|c: int|
                            0 <= c < expected@.len() && (#[trigger] expected@[c]).target@ == targets@[a]@ by {
                            if a < i {
                                let c = choose|c: int| 0 <= c < old_expected.len() && (#[trigger] old_expected[c]).target@ == targets@[a]@;
                                assert(expected@[c] == old_expected[c]);
                            } else {
                                assert(expected@[old_expected.len() as int].target@ == targets@[a]@);
                            }
                        }
                    }
                }
            } else {
                proof {
                    assert(!m.contains_key(targets@[i as int]@));
                }
            }
        } else {
            proof {
                assert(!m.contains_key(targets@[i as int]@));
            }
        }
        i = i + 1;
    }
    proof {
        assert forall|t: (Seq<char>, Option<Seq<char>>)| #[trigger] m.contains_key(t) implies exists|c: int|
            0 <= c < expected@.len() && (#[trigger] expected@[c]).target@ == t by {
            let keys = scope_target_keys(before, scope@);
            assert(keys.contains(t));
            let a = choose|a: int| 0 <= a < keys.len() && keys[a] == t;
            assert(target_views(targets@)[a] == targets@[a]@);
            assert(m.contains_key(targets@[a]@));
        }
    }
    Ok(expected)
}

/// Whether an effect switch is under way on a device.
#[derive(Debug)]
pub struct SwitchGate {
    pub pending: bool,
}

impl SwitchGate {
    /// No switch under way.
    pub fn new() -> (g: SwitchGate)
        ensures
            !g.pending,
    {
        SwitchGate { pending: false }
    }
}

/// A switch under way: the configuration before it, and the switches to wait for.
#[derive(Debug)]
pub struct SwitchStart {
    pub backup: DeviceConfig,
    pub expected: Vec<ExpectedSwitch>,
}

/// What starting a switch yields: refused while another is under way (nothing changes);
/// otherwise the effect is selected as `prepare_switch` does, and where that succeeds the
/// switch is under way, with the configuration before it kept as the backup.
pub open spec fn begin_outcome(
    pending: bool,
    d: DeviceView,
    k: ScopeKey,
    effect_id: Seq<char>,
    now: u64,
    catalog: EffectCatalog,
    r: Result<(), String>,
    backup: Option<DeviceView>,
    pending2: bool,
    d2: DeviceView,
) -> bool {
    if pending {
        &&& r matches Err(e) && e@ == "Effect switch already in progress"@
        &&& d2 == d
        &&& pending2
    } else {
        &&& set_effect_outcome(d, k, Some(effect_id), now, catalog, r, d2)
        &&& pending2 == (r is Ok)
        &&& (r is Ok ==> backup == Some(d))
    }
}

/// What ending a switch with `outcome` yields: no switch is under way; a failed switch
/// puts the backup back, a successful one keeps the configuration.
pub open spec fn finish_outcome(d: DeviceView, backup: DeviceView, outcome: Result<(), String>, d2: DeviceView) -> bool {
    if outcome is Err { d2 == backup } else { d2 == d }
}

/// Starts switching the effect at `scope` to `effect_id`, unless a switch is under way.
pub fn begin_switch(
    gate: &mut SwitchGate,
    cfg: &mut DeviceConfig,
    port: &str,
    scope: &Scope,
    effect_id: &str,
    now: u64,
    catalog: &EffectCatalog,
) -> (r: Result<SwitchStart, String>)
    requires
        old(cfg).wf(),
        catalog.wf(),
    ensures
        final(cfg).wf(),
        begin_outcome(
            old(gate).pending,
            old(cfg)@,
            scope@,
            effect_id@,
            now,
            *catalog,
            drop_ok(r),
            match r { Ok(st) => Some(st.backup@), Err(_) => None },
            final(gate).pending,
            final(cfg)@,
        ),
        r matches Ok(st) ==> st.backup.wf() && lists_switches(
            st.expected@,
            expected_switches(scope_target_keys(old(cfg)@, scope@), old(cfg)@, final(cfg)@, *catalog),
        ),
{
    if gate.pending {
        return Err(owned("Effect switch already in progress"));
    }
    let backup = cfg.duplicate();
    let expected = prepare_switch(cfg, port, scope, effect_id, now, catalog)?;
    gate.pending = true;
    Ok(SwitchStart { backup, expected })
}

/// Ends the switch under way with `outcome`, putting the backup back where it failed
/// (an error or a timeout), and answers `outcome`.
pub fn finish_switch(gate: &mut SwitchGate, cfg: &mut DeviceConfig, backup: DeviceConfig, outcome: Result<(), String>) -> (r: Result<(), String>)
    requires
        old(cfg).wf(),
        backup.wf(),
    ensures
        !final(gate).pending,
        final(cfg).wf(),
        r == outcome,
        finish_outcome(old(cfg)@, backup@, outcome, final(cfg)@),
{
    gate.pending = false;
    if outcome.is_err() {
        *cfg = backup;
    }
    outcome
}

/// A switch that fails or times out leaves the configuration as it was before the
/// switch started, whatever the switch changed meanwhile.
pub proof fn law_failed_switch_restores(
    d0: DeviceView,
    k: ScopeKey,
    effect_id: Seq<char>,
    now: u64,
    catalog: EffectCatalog,
    backup: DeviceView,
    d1: DeviceView,
    d2: DeviceView,
    pending1: bool,
    outcome: Result<(), String>,
    d3: DeviceView,
)
    requires
        begin_outcome(false, d0, k, effect_id, now, catalog, Ok(()), Some(backup), pending1, d1),
        finish_outcome(d2, backup, outcome, d3),
        outcome is Err,
    ensures
        d3 == d0,
{
}

/// While a switch is under way, starting another is refused, changes nothing, and the
/// switch under way stays under way.
pub proof fn law_one_switch_at_a_time(
    d: DeviceView,
    k: ScopeKey,
    effect_id: Seq<char>,
    now: u64,
    catalog: EffectCatalog,
    r: Result<(), String>,
    backup: Option<DeviceView>,
    pending2: bool,
    d2: DeviceView,
)
    requires
        begin_outcome(true, d, k, effect_id, now, catalog, r, backup, pending2, d2),
    ensures
        r matches Err(e) && e@ == "Effect switch already in progress"@,
        d2 == d,
        pending2,
{
}

/// A report from a render target about a pending switch.
#[derive(Debug)]
pub enum SwitchEvent {
    Ready { output_id: String, segment_id: Option<String>, effect_id: String, origin_rev: u64 },
    Failed { output_id: String, segment_id: Option<String>, effect_id: String, origin_rev: u64, reason: String },
}

/// Waits for the expected switches: a target is done when it reports ready with the
/// expected effect and revision; a matching failure fails the wait.
#[derive(Debug)]
pub struct SwitchWaiter {
    pub expected: Vec<ExpectedSwitch>,
    /// `remaining[i]` while switch `i` has not reported ready.
    pub remaining: Vec<bool>,
}

/// The view of an optional id.
pub open spec fn opt_view(s: Option<String>) -> Option<Seq<char>> {
    match s {
        Some(x) => Some(x@),
        None => None,
    }
}

impl SwitchWaiter {
    pub open spec fn wf(&self) -> bool {
        &&& self.remaining@.len() == self.expected@.len()
        &&& forall|i: int, j: int| 0 <= i < j < self.expected@.len() ==> (#[trigger] self.expected@[i]).target@
            != (#[trigger] self.expected@[j]).target@
    }

    /// The targets still waited for.
    pub open spec fn waiting(&self) -> Set<(Seq<char>, Option<Seq<char>>)> {
        Set::new(|t: (Seq<char>, Option<Seq<char>>)| exists|i: int| 0 <= i < self.expected@.len() && self.remaining@[i]
            && (#[trigger] self.expected@[i]).target@ == t)
    }

    /// Starts waiting for every expected switch.
    pub fn new(expected: Vec<ExpectedSwitch>) -> (w: SwitchWaiter)
        requires
            forall|i: int, j: int| 0 <= i < j < expected@.len() ==> (#[trigger] expected@[i]).target@
                != (#[trigger] expected@[j]).target@,
        ensures
            w.wf(),
            w.expected@ == expected@,
            w.waiting() == Set::new(|t: (Seq<char>, Option<Seq<char>>)| exists|i: int| 0 <= i < expected@.len()
                && (#[trigger] expected@[i]).target@ == t),
    {
        let mut remaining: Vec<bool> = Vec::new();
        let mut i: usize = 0;
        while i < expected.len()
            invariant
                i <= expected@.len(),
                remaining@.len() == i,
                forall|a: int| 0 <= a < i ==> #[trigger] remaining@[a],
            decreases expected.len() - i,
        {
            remaining.push(true);
            i = i + 1;
        }
        let w = SwitchWaiter { expected, remaining };
        proof {
            assert(w.waiting() =~= Set::new(|t: (Seq<char>, Option<Seq<char>>)| exists|i: int| 0 <= i < w.expected@.len()
                && (#[trigger] w.expected@[i]).target@ == t));
        }
        w
    }

    /// Whether every expected switch reported ready.
    pub fn is_done(&self) -> (b: bool)
        requires
            self.wf(),
        ensures
            b == (self.waiting() == Set::<(Seq<char>, Option<Seq<char>>)>::empty()),
    {
        let mut i: usize = 0;
        while i < self.remaining.len()
            invariant
                self.wf(),
                i <= self.remaining@.len(),
                forall|a: int| 0 <= a < i ==> !#[trigger] self.remaining@[a],
            decreases self.remaining.len() - i,
        {
            if self.remaining[i] {
                proof {
                    assert(self.waiting().contains(self.expected@[i as int].target@));
                }
                return false;
            }
            i = i + 1;
        }
        proof {
            assert(self.waiting() =~= Set::<(Seq<char>, Option<Seq<char>>)>::empty());
        }
        true
    }

    /// Takes a report. A ready report with the expected effect and revision ends the wait
    /// for its target; a failure with them fails the wait with its reason; any other
    /// report changes nothing.
    pub fn on_event(&mut self, event: SwitchEvent) -> (r: Option<String>)
        requires
            old(self).wf(),
        ensures
            final(self).wf(),
            final(self).expected@ == old(self).expected@,
            ({
                let matched = exists|i: int| 0 <= i < old(self).expected@.len() && #[trigger] reports(
                    old(self).expected@[i],
                    event_key(event),
                    event_effect(event),
                    event_rev(event),
                );
                match event {
                    SwitchEvent::Ready { .. } => r is None && final(self).waiting() == if matched {
                        old(self).waiting().remove(event_key(event))
                    } else {
                        old(self).waiting()
                    },
                    SwitchEvent::Failed { reason, .. } => final(self).waiting() == old(self).waiting() && if matched {
                        r matches Some(m) && m@ == reason@
                    } else {
                        r is None
                    },
                }
            }),
    {
        let (key, effect_id, origin_rev, failure) = match &event {
            SwitchEvent::Ready { output_id, segment_id, effect_id, origin_rev } => (
                SwitchTarget { output_id: output_id.clone(), segment_id: clone_opt(segment_id) },
                effect_id.clone(),
                *origin_rev,
                None,
            ),
            SwitchEvent::Failed { output_id, segment_id, effect_id, origin_rev, reason } => (
                SwitchTarget { output_id: output_id.clone(), segment_id: clone_opt(segment_id) },
                effect_id.clone(),
                *origin_rev,
                Some(reason.clone()),
            ),
        };
        let ghost before = self.waiting();
        let mut i: usize = 0;
        while i < self.expected.len()
            invariant
                self.wf(),
                self.expected@ == old(self).expected@,
                self.remaining@ == old(self).remaining@,
                self.waiting() == before,
                before == old(self).waiting(),
                key@ == event_key(event),
                effect_id@ == event_effect(event),
                origin_rev == event_rev(event),
                match event {
                    SwitchEvent::Ready { .. } => failure is None,
                    SwitchEvent::Failed { reason, .. } => failure matches Some(x) && x@ == reason@,
                },
                i <= self.expected@.len(),
                forall|a: int| 0 <= a < i ==> !#[trigger] reports(self.expected@[a], event_key(event), event_effect(event), event_rev(event)),
            decreases self.expected.len() - i,
        {
            if same_target(&self.expected[i].target, &key) {
                let matches = str_equal(self.expected[i].effect_id.as_str(), effect_id.as_str())
                    && self.expected[i].origin_rev == origin_rev;
                if matches {
                    proof {
                        assert(reports(old(self).expected@[i as int], event_key(event), event_effect(event), event_rev(event)));
                    }
                    match failure {
                        Some(reason) => {
                            return Some(reason);
                        },
                        None => {
                            self.remaining.set(i, false);
                            proof {
                                assert forall|t: (Seq<char>, Option<Seq<char>>)| #[trigger] self.waiting().contains(t)
                                    == before.remove(key@).contains(t) by {
                                    if t == key@ {
                                        if self.waiting().contains(t) {
                                            let j = choose|j: int| 0 <= j < self.expected@.len() && self.remaining@[j]
                                                && (#[trigger] self.expected@[j]).target@ == t;
                                            assert(j != i);
                                        }
                                    } else if before.contains(t) {
                                        let j = choose|j: int| 0 <= j < self.expected@.len() && old(self).remaining@[j]
                                            && (#[trigger] self.expected@[j]).target@ == t;
                                        assert(j != i);
                                        assert(self.remaining@[j]);
                                    }
                                }
                                assert(self.waiting() =~= before.remove(key@));
                            }
                            return None;
                        },
                    }
                }
                proof {
                    assert forall|j: int| 0 <= j < old(self).expected@.len() implies !#[trigger] reports(
                        old(self).expected@[j],
                        event_key(event),
                        event_effect(event),
                        event_rev(event),
                    ) by {
                        if j > i {
                            assert(self.expected@[j].target@ != self.expected@[i as int].target@);
                        } else if j < i {
                            assert(!reports(self.expected@[j], event_key(event), event_effect(event), event_rev(event)));
                        }
                    }
                }
                return None;
            }
            i = i + 1;
        }
        proof {
            assert forall|j: int| 0 <= j < old(self).expected@.len() implies !#[trigger] reports(
                old(self).expected@[j],
                event_key(event),
                event_effect(event),
                event_rev(event),
            ) by {
                assert(!reports(self.expected@[j], event_key(event), event_effect(event), event_rev(event)));
            }
        }
        None
    }
}

/// A copy of an optional id.
fn clone_opt(s: &Option<String>) -> (r: Option<String>)
    ensures
        opt_view(r) == opt_view(*s),
{
    match s {
        Some(x) => Some(x.clone()),
        None => None,
    }
}

/// The target a report concerns.
pub open spec fn event_key(e: SwitchEvent) -> (Seq<char>, Option<Seq<char>>) {
    match e {
        SwitchEvent::Ready { output_id, segment_id, .. } => (output_id@, opt_view(segment_id)),
        SwitchEvent::Failed { output_id, segment_id, .. } => (output_id@, opt_view(segment_id)),
    }
}

/// The effect a report concerns.
pub open spec fn event_effect(e: SwitchEvent) -> Seq<char> {
    match e {
        SwitchEvent::Ready { effect_id, .. } => effect_id@,
        SwitchEvent::Failed { effect_id, .. } => effect_id@,
    }
}

/// The revision a report concerns.
pub open spec fn event_rev(e: SwitchEvent) -> u64 {
    match e {
        SwitchEvent::Ready { origin_rev, .. } => origin_rev,
        SwitchEvent::Failed { origin_rev, .. } => origin_rev,
    }
}

/// Whether the report concerns expected switch `e`, with its effect and revision.
pub open spec fn reports(e: ExpectedSwitch, key: (Seq<char>, Option<Seq<char>>), effect_id: Seq<char>, rev: u64) -> bool {
    e.target@ == key && e.effect_id@ == effect_id && e.origin_rev == rev
}

/// "Effect switch timeout (5s)".
pub fn switch_timeout_message() -> (s: String)
    ensures
        s@ == "Effect switch timeout (5s)"@,
{
    owned("Effect switch timeout (5s)")
}

/// "Effect switch channel disconnected".
pub fn switch_disconnected_message() -> (s: String)
    ensures
        s@ == "Effect switch channel disconnected"@,
{
    owned("Effect switch channel disconnected")
}

} // verus!
