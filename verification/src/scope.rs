//! The configuration of one device: effect selection and brightness per scope
//! (device, output, segment), with inheritance from segment to output to device.
use vstd::prelude::*;
use crate::layout::{
    CapabilitiesView, MatrixMap, MatrixView, OutputCapabilities, SegmentType, opt_matrix_view,
};
use crate::params::{EffectCatalog, EffectParams, ParamMap, assoc_map, default_params_for_effect};
use crate::text::{concat3, owned, str_equal};

verus! {

/// The revision that follows `r` (wrapping).
pub open spec fn next_rev(r: u64) -> u64 {
    if r == u64::MAX {
        0
    } else {
        (r + 1) as u64
    }
}

/// The effect a scope selects explicitly, and since when it runs.
#[derive(Debug)]
pub struct ActiveEffect {
    pub effect_id: String,
    pub started_at: u64,
}

/// Effect selection and stored parameters of one scope.
#[derive(Debug)]
pub struct ModeConfig {
    /// `None` means the scope inherits from its parent.
    pub active_effect: Option<ActiveEffect>,
    pub params_by_effect: EffectParams,
    pub rev: u64,
}

/// What a mode configuration holds.
#[verifier::ext_equal]
pub struct ModeView {
    /// Explicitly selected effect id and its start time.
    pub active: Option<(Seq<char>, u64)>,
    /// Stored parameter entries per effect id.
    pub params: Map<Seq<char>, Seq<(String, String)>>,
    pub rev: u64,
}

impl View for ModeConfig {
    type V = ModeView;

    open spec fn view(&self) -> ModeView {
        ModeView {
            active: match self.active_effect {
                Some(a) => Some((a.effect_id@, a.started_at)),
                None => None,
            },
            params: self.params_by_effect@,
            rev: self.rev,
        }
    }
}

impl ModeView {
    /// The mode after switching to inheritance.
    pub open spec fn inherit(self) -> ModeView {
        ModeView {
            active: None,
            params: self.params,
            rev: if self.active is Some { next_rev(self.rev) } else { self.rev },
        }
    }

    /// The stored parameters of `id`, or the registered defaults.
    pub open spec fn params_for(self, id: Seq<char>, catalog: EffectCatalog) -> Option<Seq<(String, String)>> {
        if self.params.contains_key(id) {
            Some(self.params[id])
        } else {
            match catalog.defaults(id) {
                Some(d) => Some(d.entries@),
                None => None,
            }
        }
    }

    /// The parameters with an entry for `id`: kept if present, else the registered defaults.
    pub open spec fn params_with_entry(self, id: Seq<char>, catalog: EffectCatalog) -> Map<Seq<char>, Seq<(String, String)>> {
        if self.params.contains_key(id) {
            self.params
        } else {
            self.params.insert(id, catalog.defaults(id)->0.entries@)
        }
    }

    /// Whether the parameters of `id` are stored or registered.
    pub open spec fn knows(self, id: Seq<char>, catalog: EffectCatalog) -> bool {
        self.params.contains_key(id) || catalog.defaults(id) is Some
    }

    /// The mode after explicitly selecting `id`, started at `started_at`.
    pub open spec fn select(self, id: Seq<char>, started_at: u64, catalog: EffectCatalog) -> ModeView {
        ModeView {
            active: Some((id, started_at)),
            params: self.params_with_entry(id, catalog),
            rev: next_rev(self.rev),
        }
    }
}

/// A fresh mode: inheriting, nothing stored.
pub open spec fn default_mode() -> ModeView {
    ModeView { active: None, params: Map::empty(), rev: 0 }
}

impl ModeConfig {
    pub open spec fn wf(&self) -> bool {
        self.params_by_effect.wf()
    }

    /// A fresh mode: inheriting, nothing stored.
    pub fn new() -> (r: ModeConfig)
        ensures
            r.wf(),
            r@ == default_mode(),
    {
        ModeConfig { active_effect: None, params_by_effect: EffectParams::new(), rev: 0 }
    }

    /// The explicitly selected effect id.
    pub fn selected_effect_id(&self) -> (r: Option<String>)
        ensures
            match (r, self@.active) {
                (Some(s), Some(a)) => s@ == a.0,
                (None, None) => true,
                _ => false,
            },
    {
        match &self.active_effect {
            Some(a) => Some(a.effect_id.clone()),
            None => None,
        }
    }

    /// A copy of this mode.
    pub fn duplicate(&self) -> (r: ModeConfig)
        requires
            self.wf(),
        ensures
            r.wf(),
            r@ == self@,
    {
        let active_effect = match &self.active_effect {
            Some(a) => Some(ActiveEffect { effect_id: a.effect_id.clone(), started_at: a.started_at }),
            None => None,
        };
        ModeConfig { active_effect, params_by_effect: self.params_by_effect.duplicate(), rev: self.rev }
    }

    /// Switches this scope to inheritance.
    pub fn set_inherit(&mut self)
        ensures
            final(self)@ == old(self)@.inherit(),
            final(self).params_by_effect == old(self).params_by_effect,
    {
        if self.active_effect.is_some() {
            self.rev = self.rev.wrapping_add(1);
        }
        self.active_effect = None;
    }

    /// Makes sure parameters are stored for `effect_id`, taking the registered defaults.
    pub fn ensure_params_entry(&mut self, effect_id: &str, catalog: &EffectCatalog) -> (r: Result<(), String>)
        requires
            old(self).wf(),
            catalog.wf(),
        ensures
            final(self).wf(),
            final(self)@.active == old(self)@.active,
            final(self)@.rev == old(self)@.rev,
            r is Ok <==> old(self)@.knows(effect_id@, *catalog),
            r is Ok ==> final(self)@.params == old(self)@.params_with_entry(effect_id@, *catalog),
            r matches Err(e) ==> e@ == effect_not_found(effect_id@) && final(self)@ == old(self)@,
    {
        if self.params_by_effect.contains_key(effect_id) {
            return Ok(());
        }
        match default_params_for_effect(catalog, effect_id) {
            Some(defaults) => {
                self.params_by_effect.insert(owned(effect_id), defaults);
                Ok(())
            },
            None => Err(concat3("Effect '", effect_id, "' not found")),
        }
    }

    /// The stored parameters of `effect_id`, or the registered defaults.
    pub fn params_for_effect(&self, effect_id: &str, catalog: &EffectCatalog) -> (r: Option<ParamMap>)
        requires
            self.wf(),
            catalog.wf(),
        ensures
            match (r, self@.params_for(effect_id@, *catalog)) {
                (Some(p), Some(q)) => p.entries@ == q && p.wf(),
                (None, None) => true,
                _ => false,
            },
    {
        match self.params_by_effect.get(effect_id) {
            Some(p) => Some(p.duplicate()),
            None => default_params_for_effect(catalog, effect_id),
        }
    }

    /// Selects `effect_id` explicitly.
    pub fn set_effect(&mut self, effect_id: &str, started_at: u64, catalog: &EffectCatalog) -> (r: Result<(), String>)
        requires
            old(self).wf(),
            catalog.wf(),
        ensures
            final(self).wf(),
            r is Ok <==> old(self)@.knows(effect_id@, *catalog),
            r is Ok ==> final(self)@ == old(self)@.select(effect_id@, started_at, *catalog),
            r matches Err(e) ==> e@ == effect_not_found(effect_id@) && final(self)@ == old(self)@,
    {
        self.ensure_params_entry(effect_id, catalog)?;
        self.active_effect = Some(ActiveEffect { effect_id: owned(effect_id), started_at });
        self.rev = self.rev.wrapping_add(1);
        Ok(())
    }

    /// Merges `params` into the stored parameters of `effect_id`.
    pub fn merge_params(&mut self, effect_id: &str, params: &ParamMap, catalog: &EffectCatalog) -> (r: Result<(), String>)
        requires
            old(self).wf(),
            catalog.wf(),
        ensures
            final(self).wf(),
            r is Ok <==> old(self)@.knows(effect_id@, *catalog),
            r matches Err(e) ==> e@ == effect_not_found(effect_id@) && final(self)@ == old(self)@,
            r is Ok ==> merged(old(self)@, final(self)@, effect_id@, params@, *catalog),
    {
        self.ensure_params_entry(effect_id, catalog)?;
        self.params_by_effect.merge_into(effect_id, params);
        self.rev = self.rev.wrapping_add(1);
        Ok(())
    }
}

/// "Effect '{id}' not found".
pub open spec fn effect_not_found(id: Seq<char>) -> Seq<char> {
    "Effect '"@ + id + "' not found"@
}

/// `after` is `before` with `params` merged into the parameters of `id`
/// (first taking the registered defaults if none were stored), and the revision bumped.
pub open spec fn merged(before: ModeView, after: ModeView, id: Seq<char>, params: Map<Seq<char>, String>, catalog: EffectCatalog) -> bool {
    let base = before.params_with_entry(id, catalog);
    &&& after.active == before.active
    &&& after.rev == next_rev(before.rev)
    &&& after.params.dom() == base.dom()
    &&& forall|k: Seq<char>| k != id ==> #[trigger] after.params.get(k) == base.get(k)
    &&& assoc_map(after.params[id]) == assoc_map(base[id]).union_prefer_right(params)
}


/// One user-defined segment of an output, with its own mode and brightness.
#[derive(Debug)]
pub struct SegmentConfig {
    pub id: String,
    pub name: String,
    pub segment_type: SegmentType,
    pub leds_count: usize,
    pub matrix: Option<MatrixMap>,
    pub brightness: u8,
    pub mode: ModeConfig,
}

/// One output port of a device, with its mode, brightness and segments.
#[derive(Debug)]
pub struct OutputConfig {
    pub id: String,
    pub name: String,
    pub output_type: SegmentType,
    pub leds_count: usize,
    pub matrix: Option<MatrixMap>,
    pub capabilities: OutputCapabilities,
    pub brightness: u8,
    pub mode: ModeConfig,
    pub segments: Vec<SegmentConfig>,
}

/// The configuration of one device. Outputs are looked up by id; where two outputs
/// share an id, the later one is the one found.
#[derive(Debug)]
pub struct DeviceConfig {
    pub brightness: u8,
    pub mode: ModeConfig,
    pub outputs: Vec<OutputConfig>,
}

/// What a segment configuration holds.
#[verifier::ext_equal]
pub struct SegmentView {
    pub id: Seq<char>,
    pub name: Seq<char>,
    pub segment_type: SegmentType,
    pub leds_count: usize,
    pub matrix: Option<MatrixView>,
    pub brightness: u8,
    pub mode: ModeView,
}

/// What an output configuration holds.
#[verifier::ext_equal]
pub struct OutputView {
    pub id: Seq<char>,
    pub name: Seq<char>,
    pub output_type: SegmentType,
    pub leds_count: usize,
    pub matrix: Option<MatrixView>,
    pub capabilities: CapabilitiesView,
    pub brightness: u8,
    pub mode: ModeView,
    pub segments: Seq<SegmentView>,
}

/// What a device configuration holds.
#[verifier::ext_equal]
pub struct DeviceView {
    pub brightness: u8,
    pub mode: ModeView,
    pub outputs: Seq<OutputView>,
}

impl View for SegmentConfig {
    type V = SegmentView;

    open spec fn view(&self) -> SegmentView {
        SegmentView {
            id: self.id@,
            name: self.name@,
            segment_type: self.segment_type,
            leds_count: self.leds_count,
            matrix: opt_matrix_view(self.matrix),
            brightness: self.brightness,
            mode: self.mode@,
        }
    }
}

/// The views of a list of segments.
pub open spec fn segment_views(s: Seq<SegmentConfig>) -> Seq<SegmentView> {
    Seq::new(s.len(), |i: int| s[i]@)
}

impl View for OutputConfig {
    type V = OutputView;

    open spec fn view(&self) -> OutputView {
        OutputView {
            id: self.id@,
            name: self.name@,
            output_type: self.output_type,
            leds_count: self.leds_count,
            matrix: opt_matrix_view(self.matrix),
            capabilities: self.capabilities@,
            brightness: self.brightness,
            mode: self.mode@,
            segments: segment_views(self.segments@),
        }
    }
}

/// The views of a list of outputs.
pub open spec fn output_views(s: Seq<OutputConfig>) -> Seq<OutputView> {
    Seq::new(s.len(), |i: int| s[i]@)
}

impl View for DeviceConfig {
    type V = DeviceView;

    open spec fn view(&self) -> DeviceView {
        DeviceView { brightness: self.brightness, mode: self.mode@, outputs: output_views(self.outputs@) }
    }
}

impl SegmentConfig {
    pub open spec fn wf(&self) -> bool {
        self.mode.wf()
    }
}

impl OutputConfig {
    pub open spec fn wf(&self) -> bool {
        &&& self.mode.wf()
        &&& forall|j: int| 0 <= j < self.segments@.len() ==> (#[trigger] self.segments@[j]).wf()
    }
}

impl DeviceConfig {
    /// Every stored parameter table is well formed.
    pub open spec fn wf(&self) -> bool {
        &&& self.mode.wf()
        &&& forall|i: int| 0 <= i < self.outputs@.len() ==> (#[trigger] self.outputs@[i]).wf()
    }
}

/// A configuration scope, named by ids.
#[derive(Debug)]
pub enum Scope {
    Device,
    Output { output_id: String },
    Segment { output_id: String, segment_id: String },
}

/// A scope named by id sequences.
pub enum ScopeKey {
    Device,
    Output(Seq<char>),
    Segment(Seq<char>, Seq<char>),
}

impl View for Scope {
    type V = ScopeKey;

    open spec fn view(&self) -> ScopeKey {
        match self {
            Scope::Device => ScopeKey::Device,
            Scope::Output { output_id } => ScopeKey::Output(output_id@),
            Scope::Segment { output_id, segment_id } => ScopeKey::Segment(output_id@, segment_id@),
        }
    }
}

impl ScopeKey {
    /// 0 for the device, 1 for an output, 2 for a segment.
    pub open spec fn level(self) -> int {
        match self {
            ScopeKey::Device => 0,
            ScopeKey::Output(_) => 1,
            ScopeKey::Segment(_, _) => 2,
        }
    }

    /// The output id of an output or segment scope.
    pub open spec fn output_id(self) -> Seq<char> {
        match self {
            ScopeKey::Device => Seq::empty(),
            ScopeKey::Output(o) => o,
            ScopeKey::Segment(o, _) => o,
        }
    }

    /// The segment id of a segment scope.
    pub open spec fn segment_id(self) -> Seq<char> {
        match self {
            ScopeKey::Segment(_, s) => s,
            _ => Seq::empty(),
        }
    }
}

/// The index of the last output with id `id`, or -1.
pub open spec fn out_index(outs: Seq<OutputView>, id: Seq<char>) -> int
    decreases outs.len(),
{
    if outs.len() == 0 {
        -1
    } else if outs.last().id == id {
        outs.len() - 1
    } else {
        out_index(outs.drop_last(), id)
    }
}

/// The index of the first segment with id `id`, or -1.
pub open spec fn seg_index(segs: Seq<SegmentView>, id: Seq<char>) -> int
    decreases segs.len(),
{
    if segs.len() == 0 {
        -1
    } else if segs[0].id == id {
        0
    } else {
        let r = seg_index(segs.drop_first(), id);
        if r < 0 { -1 } else { r + 1 }
    }
}

impl DeviceView {
    /// The index of the output a scope names, or -1.
    pub open spec fn out_of(self, k: ScopeKey) -> int {
        match k {
            ScopeKey::Device => -1,
            ScopeKey::Output(o) => out_index(self.outputs, o),
            ScopeKey::Segment(o, _) => out_index(self.outputs, o),
        }
    }

    /// The index of the segment a segment scope names, or -1.
    pub open spec fn seg_of(self, k: ScopeKey) -> int {
        match k {
            ScopeKey::Segment(o, s) => {
                let i = out_index(self.outputs, o);
                if i < 0 { -1 } else { seg_index(self.outputs[i].segments, s) }
            },
            _ => -1,
        }
    }

    /// Whether the scope exists in this configuration.
    pub open spec fn has_scope(self, k: ScopeKey) -> bool {
        match k {
            ScopeKey::Device => true,
            ScopeKey::Output(_) => self.out_of(k) >= 0,
            ScopeKey::Segment(_, _) => self.out_of(k) >= 0 && self.seg_of(k) >= 0,
        }
    }

    /// The mode at `level` on the path from the device down to scope `k`.
    pub open spec fn mode_at(self, k: ScopeKey, level: int) -> ModeView {
        if level <= 0 {
            self.mode
        } else if level == 1 {
            self.outputs[self.out_of(k)].mode
        } else {
            self.outputs[self.out_of(k)].segments[self.seg_of(k)].mode
        }
    }

    /// The brightness stored at `level` on the path from the device down to scope `k`.
    pub open spec fn brightness_at(self, k: ScopeKey, level: int) -> u8 {
        if level <= 0 {
            self.brightness
        } else if level == 1 {
            self.outputs[self.out_of(k)].brightness
        } else {
            self.outputs[self.out_of(k)].segments[self.seg_of(k)].brightness
        }
    }

    /// The level whose explicit selection scope `k` runs: the nearest selecting scope on
    /// the path up to the device, or -1 where none selects or the scope does not exist.
    pub open spec fn effect_origin(self, k: ScopeKey) -> int {
        if !self.has_scope(k) {
            -1
        } else if k.level() >= 2 && self.mode_at(k, 2).active is Some {
            2
        } else if k.level() >= 1 && self.mode_at(k, 1).active is Some {
            1
        } else if self.mode.active is Some {
            0
        } else {
            -1
        }
    }

    /// The level whose brightness scope `k` uses: the nearest scope that selects an
    /// effect explicitly, else the device; -1 where the scope does not exist.
    pub open spec fn brightness_origin(self, k: ScopeKey) -> int {
        if !self.has_scope(k) {
            -1
        } else if k.level() >= 2 && self.mode_at(k, 2).active is Some {
            2
        } else if k.level() >= 1 && self.mode_at(k, 1).active is Some {
            1
        } else {
            0
        }
    }

    /// A non-device scope follows its parent when it selects no effect itself.
    pub open spec fn is_following(self, k: ScopeKey) -> bool {
        k.level() > 0 && self.has_scope(k) && self.mode_at(k, k.level()).active is None
    }
}

/// Whether `r` names the scope at `level` on the path to `k` on device `port`.
pub open spec fn scope_ref_is(r: ScopeRef, port: Seq<char>, k: ScopeKey, level: int) -> bool {
    &&& r.port@ == port
    &&& if level >= 1 { r.output_id matches Some(o) && o@ == k.output_id() } else { r.output_id is None }
    &&& if level >= 2 { r.segment_id matches Some(s) && s@ == k.segment_id() } else { r.segment_id is None }
}

/// A reference to a scope of a device, for the user interface.
#[derive(Debug)]
pub struct ScopeRef {
    pub port: String,
    pub output_id: Option<String>,
    pub segment_id: Option<String>,
}

/// The effect a scope runs, after inheritance.
#[derive(Debug)]
pub struct ResolvedEffect {
    pub effect_id: String,
    pub from: ScopeRef,
    pub started_at: u64,
    pub params: ParamMap,
    pub origin_rev: u64,
}

/// The brightness a scope uses, after inheritance.
#[derive(Debug)]
pub struct ResolvedBrightness {
    pub value: u8,
    pub from: ScopeRef,
}

/// `r` is the effect that scope `k` runs.
pub open spec fn resolved_effect_is(r: Option<ResolvedEffect>, d: DeviceView, port: Seq<char>, k: ScopeKey, catalog: EffectCatalog) -> bool {
    let l = d.effect_origin(k);
    if l < 0 {
        r is None
    } else {
        let m = d.mode_at(k, l);
        let id = (m.active->0).0;
        match m.params_for(id, catalog) {
            None => r is None,
            Some(p) => r matches Some(x) && {
                &&& x.effect_id@ == id
                &&& scope_ref_is(x.from, port, k, l)
                &&& x.started_at == (m.active->0).1
                &&& x.params.entries@ == p
                &&& x.params.wf()
                &&& x.origin_rev == m.rev
            },
        }
    }
}

/// `r` is the brightness that scope `k` uses.
pub open spec fn resolved_brightness_is(r: Option<ResolvedBrightness>, d: DeviceView, port: Seq<char>, k: ScopeKey) -> bool {
    let l = d.brightness_origin(k);
    if l < 0 {
        r is None
    } else {
        r matches Some(x) && x.value == d.brightness_at(k, l) && scope_ref_is(x.from, port, k, l)
    }
}


pub proof fn lemma_out_index(outs: Seq<OutputView>, id: Seq<char>)
    ensures
        -1 <= out_index(outs, id) < outs.len(),
        out_index(outs, id) >= 0 ==> outs[out_index(outs, id)].id == id,
        forall|j: int| out_index(outs, id) < j < outs.len() ==> #[trigger] outs[j].id != id,
    decreases outs.len(),
{
    if outs.len() > 0 {
        let t = outs.drop_last();
        lemma_out_index(t, id);
        assert(outs.last() == outs[outs.len() - 1]);
        if outs.last().id != id {
            assert forall|j: int| out_index(outs, id) < j < outs.len() implies #[trigger] outs[j].id != id by {
                if j < outs.len() - 1 {
                    assert(outs[j] == t[j]);
                }
            }
            if out_index(t, id) >= 0 {
                assert(outs[out_index(t, id)] == t[out_index(t, id)]);
            }
        }
    }
}

pub proof fn lemma_seg_index(segs: Seq<SegmentView>, id: Seq<char>)
    ensures
        -1 <= seg_index(segs, id) < segs.len(),
        seg_index(segs, id) >= 0 ==> segs[seg_index(segs, id)].id == id,
        forall|j: int| 0 <= j < segs.len() && (seg_index(segs, id) < 0 || j < seg_index(segs, id))
            ==> #[trigger] segs[j].id != id,
    decreases segs.len(),
{
    if segs.len() > 0 && segs[0].id != id {
        let t = segs.drop_first();
        lemma_seg_index(t, id);
        assert forall|j: int| 0 <= j < segs.len() && (seg_index(segs, id) < 0 || j < seg_index(segs, id))
            implies #[trigger] segs[j].id != id by {
            if j > 0 {
                assert(segs[j] == t[j - 1]);
            }
        }
        if seg_index(t, id) >= 0 {
            assert(segs[seg_index(t, id) + 1] == t[seg_index(t, id)]);
        }
    }
}

/// The index of the first segment with id `id`.
pub fn find_segment(segments: &Vec<SegmentConfig>, id: &str) -> (r: Option<usize>)
    ensures
        match r {
            Some(j) => j as int == seg_index(segment_views(segments@), id@),
            None => seg_index(segment_views(segments@), id@) == -1,
        },
{
    let ghost v = segment_views(segments@);
    proof {
        lemma_seg_index(v, id@);
    }
    let mut j: usize = 0;
    while j < segments.len()
        invariant
            j <= segments@.len(),
            v == segment_views(segments@),
            forall|a: int| 0 <= a < j ==> #[trigger] v[a].id != id@,
        decreases segments.len() - j,
    {
        if str_equal(segments[j].id.as_str(), id) {
            proof {
                lemma_seg_index(v, id@);
                assert(v[j as int].id == id@);
            }
            return Some(j);
        }
        j = j + 1;
    }
    proof {
        lemma_seg_index(v, id@);
        if seg_index(v, id@) >= 0 {
            assert(v[seg_index(v, id@)].id == id@);
        }
    }
    None
}

impl DeviceConfig {
    /// The index of the output with id `output_id`; where ids repeat, the last one.
    pub fn output(&self, output_id: &str) -> (r: Option<usize>)
        ensures
            match r {
                Some(i) => i as int == out_index(self@.outputs, output_id@),
                None => out_index(self@.outputs, output_id@) == -1,
            },
    {
        let ghost v = self@.outputs;
        proof {
            lemma_out_index(v, output_id@);
        }
        let mut i = self.outputs.len();
        while i > 0
            invariant
                i <= self.outputs@.len(),
                v == output_views(self.outputs@),
                forall|a: int| i <= a < v.len() ==> #[trigger] v[a].id != output_id@,
            decreases i,
        {
            if str_equal(self.outputs[i - 1].id.as_str(), output_id) {
                proof {
                    lemma_out_index_last(v, output_id@, i - 1);
                }
                return Some(i - 1);
            }
            i = i - 1;
        }
        proof {
            lemma_out_index(v, output_id@);
            if out_index(v, output_id@) >= 0 {
                assert(v[out_index(v, output_id@)].id == output_id@);
            }
        }
        None
    }
}

proof fn lemma_out_index_last(outs: Seq<OutputView>, id: Seq<char>, i: int)
    requires
        0 <= i < outs.len(),
        outs[i].id == id,
        forall|j: int| i < j < outs.len() ==> #[trigger] outs[j].id != id,
    ensures
        out_index(outs, id) == i,
    decreases outs.len(),
{
    if i < outs.len() - 1 {
        let t = outs.drop_last();
        assert(outs.last() == outs[outs.len() - 1]);
        assert forall|j: int| i < j < t.len() implies #[trigger] t[j].id != id by {
            assert(t[j] == outs[j]);
        }
        assert(t[i] == outs[i]);
        lemma_out_index_last(t, id, i);
    } else {
        assert(outs.last() == outs[i]);
    }
}

impl Scope {
    /// The scope that optional output and segment ids name.
    pub fn from_options(output_id: Option<&str>, segment_id: Option<&str>) -> (r: Result<Scope, String>)
        ensures
            match (output_id, segment_id) {
                (None, None) => r matches Ok(sc) && sc@ == ScopeKey::Device,
                (Some(o), None) => r matches Ok(sc) && sc@ == ScopeKey::Output(o@),
                (Some(o), Some(g)) => r matches Ok(sc) && sc@ == ScopeKey::Segment(o@, g@),
                (None, Some(_)) => r matches Err(e) && e@ == "Invalid scope: segment_id requires output_id"@,
            },
    {
        match (output_id, segment_id) {
            (None, None) => Ok(Scope::Device),
            (Some(o), None) => Ok(Scope::Output { output_id: owned(o) }),
            (Some(o), Some(g)) => Ok(Scope::Segment { output_id: owned(o), segment_id: owned(g) }),
            (None, Some(_)) => Err(owned("Invalid scope: segment_id requires output_id")),
        }
    }
}

/// A reference to the scope at `level` on the path to `scope`, on device `port`.
pub fn scope_ref_at(port: &str, scope: &Scope, level: usize) -> (r: ScopeRef)
    requires
        level <= scope@.level(),
    ensures
        scope_ref_is(r, port@, scope@, level as int),
{
    match scope {
        Scope::Device => ScopeRef { port: owned(port), output_id: None, segment_id: None },
        Scope::Output { output_id } => ScopeRef {
            port: owned(port),
            output_id: if level >= 1 { Some(output_id.clone()) } else { None },
            segment_id: None,
        },
        Scope::Segment { output_id, segment_id } => ScopeRef {
            port: owned(port),
            output_id: if level >= 1 { Some(output_id.clone()) } else { None },
            segment_id: if level >= 2 { Some(segment_id.clone()) } else { None },
        },
    }
}

/// A reference to `scope` on device `port`.
pub fn scope_ref_for(port: &str, scope: &Scope) -> (r: ScopeRef)
    ensures
        scope_ref_is(r, port@, scope@, scope@.level()),
{
    let level: usize = match scope {
        Scope::Device => 0,
        Scope::Output { .. } => 1,
        Scope::Segment { .. } => 2,
    };
    scope_ref_at(port, scope, level)
}

/// A located segment scope names an existing segment of an existing output.
proof fn lemma_located_segment(cfg: &DeviceConfig, k: ScopeKey, i: usize, j: usize)
    requires
        cfg@.has_scope(k),
        k.level() == 2,
        i as int == cfg@.out_of(k),
        j as int == cfg@.seg_of(k),
    ensures
        i < cfg.outputs@.len(),
        j < cfg.outputs@[i as int].segments@.len(),
        cfg@.outputs[i as int] == cfg.outputs@[i as int]@,
        cfg@.outputs[i as int].segments[j as int] == cfg.outputs@[i as int].segments@[j as int]@,
        cfg.wf() ==> cfg.outputs@[i as int].segments@[j as int].wf() && cfg.outputs@[i as int].wf(),
        cfg@.mode_at(k, 2) == cfg.outputs@[i as int].segments@[j as int].mode@,
        cfg@.mode_at(k, 1) == cfg.outputs@[i as int].mode@,
        cfg@.brightness_at(k, 2) == cfg.outputs@[i as int].segments@[j as int].brightness,
        cfg@.brightness_at(k, 1) == cfg.outputs@[i as int].brightness,
{
    lemma_out_index(cfg@.outputs, k.output_id());
    let o = cfg@.outputs[i as int];
    assert(o == cfg.outputs@[i as int]@);
    lemma_seg_index(o.segments, k.segment_id());
    if cfg.wf() {
        assert(cfg.outputs@[i as int].wf());
    }
}

/// A located output scope names an existing output.
proof fn lemma_located_output(cfg: &DeviceConfig, k: ScopeKey, i: usize)
    requires
        cfg@.has_scope(k),
        k.level() >= 1,
        i as int == cfg@.out_of(k),
    ensures
        i < cfg.outputs@.len(),
        cfg@.outputs[i as int] == cfg.outputs@[i as int]@,
        cfg.wf() ==> cfg.outputs@[i as int].wf(),
        cfg@.mode_at(k, 1) == cfg.outputs@[i as int].mode@,
        cfg@.brightness_at(k, 1) == cfg.outputs@[i as int].brightness,
{
    lemma_out_index(cfg@.outputs, k.output_id());
    if cfg.wf() {
        assert(cfg.outputs@[i as int].wf());
    }
}

/// Where a scope sits in a configuration: its output and segment indices.
pub struct Located {
    pub output: Option<usize>,
    pub segment: Option<usize>,
}

/// Finds the output and segment that a scope names.
pub fn locate(cfg: &DeviceConfig, scope: &Scope) -> (r: Result<Located, String>)
    ensures
        match r {
            Ok(loc) => cfg@.has_scope(scope@) && match scope@ {
                ScopeKey::Device => loc.output is None && loc.segment is None,
                ScopeKey::Output(_) => (loc.output matches Some(i) && i as int == cfg@.out_of(scope@)) && loc.segment is None,
                ScopeKey::Segment(_, _) => (loc.output matches Some(i) && i as int == cfg@.out_of(scope@))
                    && (loc.segment matches Some(j) && j as int == cfg@.seg_of(scope@)),
            },
            Err(e) => !cfg@.has_scope(scope@) && if cfg@.out_of(scope@) < 0 {
                e@ == "Output '"@ + scope@.output_id() + "' not found"@
            } else {
                e@ == "Segment '"@ + scope@.segment_id() + "' not found"@
            },
        },
{
    match scope {
        Scope::Device => Ok(Located { output: None, segment: None }),
        Scope::Output { output_id } => match cfg.output(output_id.as_str()) {
            Some(i) => Ok(Located { output: Some(i), segment: None }),
            None => Err(concat3("Output '", output_id.as_str(), "' not found")),
        },
        Scope::Segment { output_id, segment_id } => match cfg.output(output_id.as_str()) {
            Some(i) => {
                proof {
                    lemma_out_index(cfg@.outputs, output_id@);
                    assert(cfg@.outputs[i as int].segments == segment_views(cfg.outputs@[i as int].segments@));
                }
                match find_segment(&cfg.outputs[i].segments, segment_id.as_str()) {
                    Some(j) => Ok(Located { output: Some(i), segment: Some(j) }),
                    None => Err(concat3("Segment '", segment_id.as_str(), "' not found")),
                }
            },
            None => Err(concat3("Output '", output_id.as_str(), "' not found")),
        },
    }
}

/// The mode stored at a scope.
pub fn mode_for_scope<'a>(cfg: &'a DeviceConfig, scope: &Scope) -> (r: Option<&'a ModeConfig>)
    requires
        cfg.wf(),
    ensures
        match r {
            Some(m) => cfg@.has_scope(scope@) && m@ == cfg@.mode_at(scope@, scope@.level()) && m.wf(),
            None => !cfg@.has_scope(scope@),
        },
{
    match locate(cfg, scope) {
        Err(_) => None,
        Ok(loc) => match (loc.output, loc.segment) {
            (Some(i), Some(j)) => {
                proof {
                    lemma_located_segment(cfg, scope@, i, j);
                }
                Some(&cfg.outputs[i].segments[j].mode)
            },
            (Some(i), None) => {
                proof {
                    lemma_located_output(cfg, scope@, i);
                }
                Some(&cfg.outputs[i].mode)
            },
            _ => Some(&cfg.mode),
        },
    }
}

/// The brightness stored at a scope.
pub fn brightness_for_scope(cfg: &DeviceConfig, scope: &Scope) -> (r: Option<u8>)
    ensures
        match r {
            Some(b) => cfg@.has_scope(scope@) && b == cfg@.brightness_at(scope@, scope@.level()),
            None => !cfg@.has_scope(scope@),
        },
{
    match locate(cfg, scope) {
        Err(_) => None,
        Ok(loc) => match (loc.output, loc.segment) {
            (Some(i), Some(j)) => {
                proof {
                    lemma_located_segment(cfg, scope@, i, j);
                }
                Some(cfg.outputs[i].segments[j].brightness)
            },
            (Some(i), None) => {
                proof {
                    lemma_located_output(cfg, scope@, i);
                }
                Some(cfg.outputs[i].brightness)
            },
            _ => Some(cfg.brightness),
        },
    }
}

/// Whether a non-device scope follows its parent (it selects no effect itself).
pub fn scope_is_following_mode(cfg: &DeviceConfig, scope: &Scope) -> (b: bool)
    requires
        cfg.wf(),
    ensures
        b == cfg@.is_following(scope@),
{
    if let Scope::Device = scope {
        return false;
    }
    match mode_for_scope(cfg, scope) {
        Some(m) => m.active_effect.is_none(),
        None => false,
    }
}

/// The brightness a scope uses: its own where it selects an effect, else its parent's.
pub fn resolve_brightness_for_scope(cfg: &DeviceConfig, port: &str, scope: &Scope) -> (r: Option<ResolvedBrightness>)
    ensures
        resolved_brightness_is(r, cfg@, port@, scope@),
{
    let loc = match locate(cfg, scope) {
        Err(_) => return None,
        Ok(loc) => loc,
    };
    if let (Some(i), Some(j)) = (loc.output, loc.segment) {
        proof {
            lemma_located_segment(cfg, scope@, i, j);
        }
        if cfg.outputs[i].segments[j].mode.active_effect.is_some() {
            return Some(ResolvedBrightness {
                value: cfg.outputs[i].segments[j].brightness,
                from: scope_ref_at(port, scope, 2),
            });
        }
    }
    if let Some(i) = loc.output {
        proof {
            lemma_located_output(cfg, scope@, i);
        }
        if cfg.outputs[i].mode.active_effect.is_some() {
            return Some(ResolvedBrightness { value: cfg.outputs[i].brightness, from: scope_ref_at(port, scope, 1) });
        }
    }
    Some(ResolvedBrightness { value: cfg.brightness, from: scope_ref_at(port, scope, 0) })
}

/// The effect of an explicitly selecting mode, with its parameters.
fn resolve_mode(m: &ModeConfig, from: ScopeRef, catalog: &EffectCatalog) -> (r: Option<ResolvedEffect>)
    requires
        m.wf(),
        catalog.wf(),
        m.active_effect is Some,
    ensures
        match m@.params_for((m@.active->0).0, *catalog) {
            None => r is None,
            Some(p) => r matches Some(x) && {
                &&& x.effect_id@ == (m@.active->0).0
                &&& x.from == from
                &&& x.started_at == (m@.active->0).1
                &&& x.params.entries@ == p
                &&& x.params.wf()
                &&& x.origin_rev == m@.rev
            },
        },
{
    let active = m.active_effect.as_ref().unwrap();
    match m.params_for_effect(active.effect_id.as_str(), catalog) {
        None => None,
        Some(params) => Some(ResolvedEffect {
            effect_id: active.effect_id.clone(),
            from,
            started_at: active.started_at,
            params,
            origin_rev: m.rev,
        }),
    }
}

/// The effect a scope runs: its own selection, else its output's, else the device's.
pub fn resolve_effect_for_scope(cfg: &DeviceConfig, port: &str, scope: &Scope, catalog: &EffectCatalog) -> (r: Option<ResolvedEffect>)
    requires
        cfg.wf(),
        catalog.wf(),
    ensures
        resolved_effect_is(r, cfg@, port@, scope@, *catalog),
{
    let loc = match locate(cfg, scope) {
        Err(_) => return None,
        Ok(loc) => loc,
    };
    if let (Some(i), Some(j)) = (loc.output, loc.segment) {
        proof {
            lemma_located_segment(cfg, scope@, i, j);
        }
        if cfg.outputs[i].segments[j].mode.active_effect.is_some() {
            return resolve_mode(&cfg.outputs[i].segments[j].mode, scope_ref_at(port, scope, 2), catalog);
        }
    }
    if let Some(i) = loc.output {
        proof {
            lemma_located_output(cfg, scope@, i);
        }
        if cfg.outputs[i].mode.active_effect.is_some() {
            return resolve_mode(&cfg.outputs[i].mode, scope_ref_at(port, scope, 1), catalog);
        }
    }
    if cfg.mode.active_effect.is_some() {
        return resolve_mode(&cfg.mode, scope_ref_at(port, scope, 0), catalog);
    }
    None
}


impl SegmentView {
    pub open spec fn with_mode(self, m: ModeView) -> SegmentView {
        SegmentView {
            id: self.id,
            name: self.name,
            segment_type: self.segment_type,
            leds_count: self.leds_count,
            matrix: self.matrix,
            brightness: self.brightness,
            mode: m,
        }
    }

    pub open spec fn with_brightness(self, b: u8) -> SegmentView {
        SegmentView {
            id: self.id,
            name: self.name,
            segment_type: self.segment_type,
            leds_count: self.leds_count,
            matrix: self.matrix,
            brightness: b,
            mode: self.mode,
        }
    }
}

impl OutputView {
    pub open spec fn with_mode(self, m: ModeView) -> OutputView {
        OutputView {
            id: self.id,
            name: self.name,
            output_type: self.output_type,
            leds_count: self.leds_count,
            matrix: self.matrix,
            capabilities: self.capabilities,
            brightness: self.brightness,
            mode: m,
            segments: self.segments,
        }
    }

    pub open spec fn with_brightness(self, b: u8) -> OutputView {
        OutputView {
            id: self.id,
            name: self.name,
            output_type: self.output_type,
            leds_count: self.leds_count,
            matrix: self.matrix,
            capabilities: self.capabilities,
            brightness: b,
            mode: self.mode,
            segments: self.segments,
        }
    }

    pub open spec fn with_segments(self, segments: Seq<SegmentView>) -> OutputView {
        OutputView {
            id: self.id,
            name: self.name,
            output_type: self.output_type,
            leds_count: self.leds_count,
            matrix: self.matrix,
            capabilities: self.capabilities,
            brightness: self.brightness,
            mode: self.mode,
            segments,
        }
    }

    /// Every segment switched to inheritance.
    pub open spec fn segments_inherit(self) -> OutputView {
        self.with_segments(Seq::new(self.segments.len(), |j: int| self.segments[j].with_mode(self.segments[j].mode.inherit())))
    }
}

impl DeviceView {
    /// The configuration with mode `m` at scope `k`.
    pub open spec fn with_mode_at(self, k: ScopeKey, m: ModeView) -> DeviceView {
        if k.level() == 0 {
            DeviceView { brightness: self.brightness, mode: m, outputs: self.outputs }
        } else {
            let i = self.out_of(k);
            let o = self.outputs[i];
            let o2 = if k.level() == 1 {
                o.with_mode(m)
            } else {
                let j = self.seg_of(k);
                o.with_segments(o.segments.update(j, o.segments[j].with_mode(m)))
            };
            DeviceView { brightness: self.brightness, mode: self.mode, outputs: self.outputs.update(i, o2) }
        }
    }

    /// The configuration with brightness `b` stored at scope `k`.
    pub open spec fn with_brightness_at(self, k: ScopeKey, b: u8) -> DeviceView {
        if k.level() == 0 {
            DeviceView { brightness: b, mode: self.mode, outputs: self.outputs }
        } else {
            let i = self.out_of(k);
            let o = self.outputs[i];
            let o2 = if k.level() == 1 {
                o.with_brightness(b)
            } else {
                let j = self.seg_of(k);
                o.with_segments(o.segments.update(j, o.segments[j].with_brightness(b)))
            };
            DeviceView { brightness: self.brightness, mode: self.mode, outputs: self.outputs.update(i, o2) }
        }
    }

    /// The configuration with every scope below `k` switched to inheritance.
    pub open spec fn children_inherit(self, k: ScopeKey) -> DeviceView {
        match k {
            ScopeKey::Device => DeviceView {
                brightness: self.brightness,
                mode: self.mode,
                outputs: Seq::new(
                    self.outputs.len(),
                    |i: int| self.outputs[i].with_mode(self.outputs[i].mode.inherit()).segments_inherit(),
                ),
            },
            ScopeKey::Output(o) => {
                let i = out_index(self.outputs, o);
                if i < 0 {
                    self
                } else {
                    DeviceView {
                        brightness: self.brightness,
                        mode: self.mode,
                        outputs: self.outputs.update(i, self.outputs[i].segments_inherit()),
                    }
                }
            },
            ScopeKey::Segment(_, _) => self,
        }
    }
}

impl OutputConfig {
    /// Switches every segment of this output to inheritance.
    pub fn segments_inherit(&mut self)
        requires
            old(self).wf(),
        ensures
            final(self).wf(),
            final(self)@ == old(self)@.segments_inherit(),
            final(self).id == old(self).id,
    {
        let ghost start = *self;
        let mut j: usize = 0;
        while j < self.segments.len()
            invariant
                self.wf(),
                j <= self.segments@.len(),
                self.segments@.len() == start.segments@.len(),
                self.id == start.id && self.name == start.name && self.output_type == start.output_type,
                self.leds_count == start.leds_count && self.matrix == start.matrix,
                self.capabilities == start.capabilities && self.brightness == start.brightness,
                self.mode == start.mode,
                forall|a: int| 0 <= a < j ==> (#[trigger] self.segments@[a])@ == start.segments@[a]@.with_mode(
                    start.segments@[a]@.mode.inherit(),
                ),
                forall|a: int| j <= a < self.segments@.len() ==> #[trigger] self.segments@[a] == start.segments@[a],
            decreases self.segments.len() - j,
        {
            let ghost before = self.segments@;
            self.segments[j].mode.set_inherit();
            proof {
                assert forall|a: int| 0 <= a < self.segments@.len() && a != j implies #[trigger] self.segments@[a] == before[a] by {}
                assert(self.segments@[j as int].wf());
                assert(self.segments@[j as int]@ =~~= start.segments@[j as int]@.with_mode(start.segments@[j as int]@.mode.inherit()));
            }
            j = j + 1;
        }
        proof {
            assert(self@.segments =~~= start@.segments_inherit().segments);
            assert(self@ =~~= start@.segments_inherit());
        }
    }
}

/// Switches every scope below `scope` to inheritance.
pub fn force_children_inherit(cfg: &mut DeviceConfig, scope: &Scope)
    requires
        old(cfg).wf(),
    ensures
        final(cfg).wf(),
        final(cfg)@ == old(cfg)@.children_inherit(scope@),
{
    match scope {
        Scope::Device => {
            let ghost start = *cfg;
            let mut i: usize = 0;
            while i < cfg.outputs.len()
                invariant
                    cfg.wf(),
                    i <= cfg.outputs@.len(),
                    cfg.outputs@.len() == start.outputs@.len(),
                    cfg.brightness == start.brightness && cfg.mode == start.mode,
                    forall|a: int| 0 <= a < i ==> (#[trigger] cfg.outputs@[a])@ == start.outputs@[a]@.with_mode(
                        start.outputs@[a]@.mode.inherit(),
                    ).segments_inherit(),
                    forall|a: int| i <= a < cfg.outputs@.len() ==> #[trigger] cfg.outputs@[a] == start.outputs@[a],
                decreases cfg.outputs.len() - i,
            {
                let ghost before = cfg.outputs@;
                cfg.outputs[i].mode.set_inherit();
                cfg.outputs[i].segments_inherit();
                proof {
                    assert forall|a: int| 0 <= a < cfg.outputs@.len() && a != i implies #[trigger] cfg.outputs@[a] == before[a] by {}
                    assert(cfg.outputs@[i as int].wf());
                }
                i = i + 1;
            }
            proof {
                assert(cfg@.outputs =~~= start@.children_inherit(ScopeKey::Device).outputs);
                assert(cfg@ =~~= start@.children_inherit(ScopeKey::Device));
            }
        },
        Scope::Output { output_id } => {
            if let Some(i) = cfg.output(output_id.as_str()) {
                let ghost start = *cfg;
                proof {
                    lemma_out_index(cfg@.outputs, output_id@);
                    assert(cfg.outputs@[i as int].wf());
                }
                cfg.outputs[i].segments_inherit();
                proof {
                    assert forall|a: int| 0 <= a < cfg.outputs@.len() && a != i implies #[trigger] cfg.outputs@[a] == start.outputs@[a] by {}
                    assert(cfg@.outputs =~~= start@.children_inherit(scope@).outputs);
                    assert(cfg@ =~~= start@.children_inherit(scope@));
                }
            }
        },
        Scope::Segment { .. } => {},
    }
}


/// Output lookups agree on lists with the same ids.
pub proof fn lemma_out_index_same_ids(a: Seq<OutputView>, b: Seq<OutputView>, id: Seq<char>)
    requires
        a.len() == b.len(),
        forall|j: int| 0 <= j < a.len() ==> (#[trigger] a[j]).id == b[j].id,
    ensures
        out_index(a, id) == out_index(b, id),
    decreases a.len(),
{
    if a.len() > 0 {
        assert(a.last() == a[a.len() - 1] && b.last() == b[b.len() - 1]);
        let ta = a.drop_last();
        let tb = b.drop_last();
        assert forall|j: int| 0 <= j < ta.len() implies (#[trigger] ta[j]).id == tb[j].id by {
            assert(ta[j] == a[j] && tb[j] == b[j]);
        }
        lemma_out_index_same_ids(ta, tb, id);
    }
}

/// Segment lookups agree on lists with the same ids.
pub proof fn lemma_seg_index_same_ids(a: Seq<SegmentView>, b: Seq<SegmentView>, id: Seq<char>)
    requires
        a.len() == b.len(),
        forall|j: int| 0 <= j < a.len() ==> (#[trigger] a[j]).id == b[j].id,
    ensures
        seg_index(a, id) == seg_index(b, id),
    decreases a.len(),
{
    if a.len() > 0 {
        let ta = a.drop_first();
        let tb = b.drop_first();
        assert forall|j: int| 0 <= j < ta.len() implies (#[trigger] ta[j]).id == tb[j].id by {
            assert(ta[j] == a[j + 1] && tb[j] == b[j + 1]);
        }
        lemma_seg_index_same_ids(ta, tb, id);
    }
}

/// Two configurations with the same output and segment ids, in order.
pub open spec fn same_shape(a: DeviceView, b: DeviceView) -> bool {
    &&& a.outputs.len() == b.outputs.len()
    &&& forall|i: int| 0 <= i < a.outputs.len() ==> (#[trigger] a.outputs[i]).id == b.outputs[i].id
        && a.outputs[i].segments.len() == b.outputs[i].segments.len()
        && forall|j: int| 0 <= j < a.outputs[i].segments.len() ==> (#[trigger] a.outputs[i].segments[j]).id
            == b.outputs[i].segments[j].id
}

/// Configurations of the same shape locate every scope alike.
pub proof fn lemma_same_shape_locates(a: DeviceView, b: DeviceView, k: ScopeKey)
    requires
        same_shape(a, b),
    ensures
        a.out_of(k) == b.out_of(k),
        a.seg_of(k) == b.seg_of(k),
        a.has_scope(k) == b.has_scope(k),
{
    lemma_out_index_same_ids(a.outputs, b.outputs, k.output_id());
    lemma_out_index(a.outputs, k.output_id());
    let i = out_index(a.outputs, k.output_id());
    if i >= 0 {
        let sa = a.outputs[i].segments;
        let sb = b.outputs[i].segments;
        assert forall|j: int| 0 <= j < sa.len() implies (#[trigger] sa[j]).id == sb[j].id by {}
        lemma_seg_index_same_ids(sa, sb, k.segment_id());
    }
}

/// Changing modes keeps the shape.
pub proof fn lemma_with_mode_shape(d: DeviceView, k: ScopeKey, m: ModeView)
    requires
        d.has_scope(k),
    ensures
        same_shape(d, d.with_mode_at(k, m)),
        same_shape(d, d.children_inherit(k)),
        same_shape(d, d.with_brightness_at(k, m.rev as u8)),
{
    lemma_out_index(d.outputs, k.output_id());
    if k.level() == 2 {
        lemma_seg_index(d.outputs[d.out_of(k)].segments, k.segment_id());
    }
}

impl ScopeKey {
    /// Whether `other` is this scope or lies below it.
    pub open spec fn covers(self, other: ScopeKey) -> bool {
        match self {
            ScopeKey::Device => true,
            ScopeKey::Output(o) => other.level() >= 1 && other.output_id() == o,
            ScopeKey::Segment(o, g) => other == ScopeKey::Segment(o, g),
        }
    }

    /// The scope directly above (the device for the device itself).
    pub open spec fn parent(self) -> ScopeKey {
        match self {
            ScopeKey::Device => ScopeKey::Device,
            ScopeKey::Output(_) => ScopeKey::Device,
            ScopeKey::Segment(o, _) => ScopeKey::Output(o),
        }
    }
}

/// The start time kept when `id` is selected at `k`: that of the effect the scope already
/// runs if it is the same effect, else `now`.
pub open spec fn continued_start(d: DeviceView, k: ScopeKey, id: Seq<char>, now: u64, catalog: EffectCatalog) -> u64 {
    let l = d.effect_origin(k);
    if l >= 0 && d.mode_at(k, l).params_for((d.mode_at(k, l).active->0).0, catalog) is Some
        && (d.mode_at(k, l).active->0).0 == id {
        (d.mode_at(k, l).active->0).1
    } else {
        now
    }
}

/// The message for a scope that does not exist.
pub open spec fn scope_missing(d: DeviceView, k: ScopeKey) -> Seq<char> {
    if d.out_of(k) < 0 {
        "Output '"@ + k.output_id() + "' not found"@
    } else {
        "Segment '"@ + k.segment_id() + "' not found"@
    }
}

/// A change of one scope's mode.
pub enum ModeChange {
    Select { effect_id: String, started_at: u64 },
    Inherit,
}

/// Applies a mode change at a located scope.
fn change_mode_at(cfg: &mut DeviceConfig, scope: &Scope, loc: &Located, change: &ModeChange, catalog: &EffectCatalog) -> (r: Result<(), String>)
    requires
        old(cfg).wf(),
        catalog.wf(),
        old(cfg)@.has_scope(scope@),
        match scope@ {
            ScopeKey::Device => loc.output is None && loc.segment is None,
            ScopeKey::Output(_) => (loc.output matches Some(i) && i as int == old(cfg)@.out_of(scope@)) && loc.segment is None,
            ScopeKey::Segment(_, _) => (loc.output matches Some(i) && i as int == old(cfg)@.out_of(scope@))
                && (loc.segment matches Some(j) && j as int == old(cfg)@.seg_of(scope@)),
        },
    ensures
        final(cfg).wf(),
        ({
            let m = old(cfg)@.mode_at(scope@, scope@.level());
            match change {
                ModeChange::Inherit => r is Ok && final(cfg)@ == old(cfg)@.with_mode_at(scope@, m.inherit()),
                ModeChange::Select { effect_id, started_at } => if m.knows(effect_id@, *catalog) {
                    r is Ok && final(cfg)@ == old(cfg)@.with_mode_at(scope@, m.select(effect_id@, *started_at, *catalog))
                } else {
                    r matches Err(e) && e@ == effect_not_found(effect_id@) && final(cfg)@ == old(cfg)@
                },
            }
        }),
{
    let ghost start = *cfg;
    let ghost k = scope@;
    match (loc.output, loc.segment) {
        (Some(i), Some(j)) => {
            proof {
                lemma_located_segment(cfg, k, i, j);
            }
            let r = match change {
                ModeChange::Inherit => {
                    cfg.outputs[i].segments[j].mode.set_inherit();
                    Ok(())
                },
                ModeChange::Select { effect_id, started_at } => cfg.outputs[i].segments[j].mode.set_effect(
                    effect_id.as_str(),
                    *started_at,
                    catalog,
                ),
            };
            proof {
                assert forall|a: int| 0 <= a < cfg.outputs@.len() && a != i implies #[trigger] cfg.outputs@[a] == start.outputs@[a] by {}
                let so = start.outputs@[i as int];
                let no = cfg.outputs@[i as int];
                assert forall|b: int| 0 <= b < no.segments@.len() && b != j implies #[trigger] no.segments@[b] == so.segments@[b] by {}
                assert(no.wf()) by {
                    assert forall|b: int| 0 <= b < no.segments@.len() implies (#[trigger] no.segments@[b]).wf() by {
                        if b != j {
                            assert(so.segments@[b].wf());
                        }
                    }
                }
                assert(cfg.wf()) by {
                    assert forall|a: int| 0 <= a < cfg.outputs@.len() implies (#[trigger] cfg.outputs@[a]).wf() by {
                        if a != i {
                            assert(start.outputs@[a].wf());
                        }
                    }
                }
                let m = start@.mode_at(k, 2);
                match change {
                    ModeChange::Inherit => {
                        assert(cfg@ =~~= start@.with_mode_at(k, m.inherit()));
                    },
                    ModeChange::Select { effect_id, started_at } => {
                        if m.knows(effect_id@, *catalog) {
                            assert(cfg@ =~~= start@.with_mode_at(k, m.select(effect_id@, *started_at, *catalog)));
                        } else {
                            assert(cfg@ =~~= start@);
                        }
                    },
                }
            }
            r
        },
        (Some(i), None) => {
            proof {
                lemma_located_output(cfg, k, i);
            }
            let r = match change {
                ModeChange::Inherit => {
                    cfg.outputs[i].mode.set_inherit();
                    Ok(())
                },
                ModeChange::Select { effect_id, started_at } => cfg.outputs[i].mode.set_effect(
                    effect_id.as_str(),
                    *started_at,
                    catalog,
                ),
            };
            proof {
                assert forall|a: int| 0 <= a < cfg.outputs@.len() && a != i implies #[trigger] cfg.outputs@[a] == start.outputs@[a] by {}
                assert(cfg.wf()) by {
                    assert forall|a: int| 0 <= a < cfg.outputs@.len() implies (#[trigger] cfg.outputs@[a]).wf() by {
                        if a != i {
                            assert(start.outputs@[a].wf());
                        } else {
                            assert(start.outputs@[a].wf());
                            assert forall|b: int| 0 <= b < cfg.outputs@[a].segments@.len() implies (#[trigger] cfg.outputs@[a].segments@[b]).wf() by {
                                assert(start.outputs@[a].segments@[b].wf());
                            }
                        }
                    }
                }
                let m = start@.mode_at(k, 1);
                match change {
                    ModeChange::Inherit => {
                        assert(cfg@ =~~= start@.with_mode_at(k, m.inherit()));
                    },
                    ModeChange::Select { effect_id, started_at } => {
                        if m.knows(effect_id@, *catalog) {
                            assert(cfg@ =~~= start@.with_mode_at(k, m.select(effect_id@, *started_at, *catalog)));
                        } else {
                            assert(cfg@ =~~= start@);
                        }
                    },
                }
            }
            r
        },
        _ => {
            let r = match change {
                ModeChange::Inherit => {
                    cfg.mode.set_inherit();
                    Ok(())
                },
                ModeChange::Select { effect_id, started_at } => cfg.mode.set_effect(effect_id.as_str(), *started_at, catalog),
            };
            proof {
                let m = start@.mode;
                match change {
                    ModeChange::Inherit => {
                        assert(cfg@ =~~= start@.with_mode_at(k, m.inherit()));
                    },
                    ModeChange::Select { effect_id, started_at } => {
                        if m.knows(effect_id@, *catalog) {
                            assert(cfg@ =~~= start@.with_mode_at(k, m.select(effect_id@, *started_at, *catalog)));
                        } else {
                            assert(cfg@ =~~= start@);
                        }
                    },
                }
            }
            r
        },
    }
}


/// What selecting (`Some`) or clearing (`None`) the effect of scope `k` yields, or the
/// error it is refused with.
pub open spec fn set_effect_outcome(
    d: DeviceView,
    k: ScopeKey,
    effect_id: Option<Seq<char>>,
    now: u64,
    catalog: EffectCatalog,
    r: Result<(), String>,
    d2: DeviceView,
) -> bool {
    if !d.has_scope(k) {
        r matches Err(e) && e@ == scope_missing(d, k) && d2 == d
    } else {
        let m = d.mode_at(k, k.level());
        match effect_id {
            None => r is Ok && d2 == d.with_mode_at(k, m.inherit()),
            Some(id) => if m.knows(id, catalog) {
                r is Ok && d2 == d.with_mode_at(k, m.select(id, continued_start(d, k, id, now, catalog), catalog)).children_inherit(k)
            } else {
                r matches Err(e) && e@ == effect_not_found(id) && d2 == d
            },
        }
    }
}

/// Selects `effect_id` at `scope` (the scopes below then inherit it), or with `None`
/// makes the scope inherit. An effect that keeps running keeps its start time.
pub fn set_scope_effect(
    cfg: &mut DeviceConfig,
    port: &str,
    scope: &Scope,
    effect_id: Option<&str>,
    now: u64,
    catalog: &EffectCatalog,
) -> (r: Result<(), String>)
    requires
        old(cfg).wf(),
        catalog.wf(),
    ensures
        final(cfg).wf(),
        set_effect_outcome(
            old(cfg)@,
            scope@,
            match effect_id {
                Some(e) => Some(e@),
                None => None,
            },
            now,
            *catalog,
            r,
            final(cfg)@,
        ),
{
    let current = resolve_effect_for_scope(cfg, port, scope, catalog);
    let loc = locate(cfg, scope)?;
    match effect_id {
        Some(new_id) => {
            let started_at = match &current {
                Some(res) => if str_equal(res.effect_id.as_str(), new_id) {
                    res.started_at
                } else {
                    now
                },
                None => now,
            };
            let change = ModeChange::Select { effect_id: owned(new_id), started_at };
            change_mode_at(cfg, scope, &loc, &change, catalog)?;
            force_children_inherit(cfg, scope);
            Ok(())
        },
        None => {
            change_mode_at(cfg, scope, &loc, &ModeChange::Inherit, catalog)
        },
    }
}


/// Selecting an effect at a scope makes that scope, and every scope below it, run the
/// selected effect from that scope with its stored parameters.
pub proof fn law_selection_covers_subtree(
    d: DeviceView,
    k: ScopeKey,
    id: Seq<char>,
    started: u64,
    catalog: EffectCatalog,
    k2: ScopeKey,
)
    requires
        d.has_scope(k),
        d.has_scope(k2),
        k.covers(k2),
    ensures
        ({
            let sel = d.mode_at(k, k.level()).select(id, started, catalog);
            let d2 = d.with_mode_at(k, sel).children_inherit(k);
            &&& d2.has_scope(k2)
            &&& d2.effect_origin(k2) == k.level()
            &&& d2.mode_at(k2, k.level()).active == Some((id, started))
            &&& d.mode_at(k, k.level()).knows(id, catalog) ==> d2.mode_at(k2, k.level()).params.contains_key(id)
        }),
{
    let sel = d.mode_at(k, k.level()).select(id, started, catalog);
    let d1 = d.with_mode_at(k, sel);
    let d2 = d1.children_inherit(k);
    lemma_with_mode_shape(d, k, sel);
    lemma_same_shape_locates(d, d1, k);
    lemma_same_shape_locates(d, d1, k2);
    lemma_with_mode_shape(d1, k, sel);
    lemma_same_shape_locates(d1, d2, k);
    lemma_same_shape_locates(d1, d2, k2);
    lemma_out_index(d.outputs, k.output_id());
    lemma_out_index(d.outputs, k2.output_id());
    if k2.level() == 2 {
        lemma_seg_index(d.outputs[d.out_of(k2)].segments, k2.segment_id());
    }
    if k.level() == 2 {
        lemma_seg_index(d.outputs[d.out_of(k)].segments, k.segment_id());
    }
}

/// A scope that selects no effect runs exactly what its parent runs.
pub proof fn law_inheriting_scope_runs_parent_effect(
    d: DeviceView,
    port: Seq<char>,
    k: ScopeKey,
    catalog: EffectCatalog,
    r: Option<ResolvedEffect>,
)
    requires
        d.is_following(k),
    ensures
        resolved_effect_is(r, d, port, k, catalog) == resolved_effect_is(r, d, port, k.parent(), catalog),
{
    lemma_out_index(d.outputs, k.output_id());
    if k.level() == 2 {
        lemma_seg_index(d.outputs[d.out_of(k)].segments, k.segment_id());
    }
    assert(d.has_scope(k.parent()));
}

/// A scope that selects no effect uses its parent's brightness.
pub proof fn law_following_scope_uses_parent_brightness(
    d: DeviceView,
    port: Seq<char>,
    k: ScopeKey,
    r: Option<ResolvedBrightness>,
)
    requires
        d.is_following(k),
    ensures
        resolved_brightness_is(r, d, port, k) == resolved_brightness_is(r, d, port, k.parent()),
{
    lemma_out_index(d.outputs, k.output_id());
    if k.level() == 2 {
        lemma_seg_index(d.outputs[d.out_of(k)].segments, k.segment_id());
    }
    assert(d.has_scope(k.parent()));
}

/// Clearing a scope's selection makes it follow its parent, and leaves what the parent
/// runs and the brightness it uses unchanged.
pub proof fn law_clearing_keeps_parent(
    d: DeviceView,
    port: Seq<char>,
    k: ScopeKey,
    catalog: EffectCatalog,
    r: Option<ResolvedEffect>,
    b: Option<ResolvedBrightness>,
)
    requires
        d.has_scope(k),
        k.level() > 0,
    ensures
        ({
            let d2 = d.with_mode_at(k, d.mode_at(k, k.level()).inherit());
            &&& d2.is_following(k)
            &&& resolved_effect_is(r, d2, port, k.parent(), catalog) == resolved_effect_is(r, d, port, k.parent(), catalog)
            &&& resolved_brightness_is(b, d2, port, k.parent()) == resolved_brightness_is(b, d, port, k.parent())
        }),
{
    let m = d.mode_at(k, k.level()).inherit();
    let d2 = d.with_mode_at(k, m);
    lemma_with_mode_shape(d, k, m);
    lemma_same_shape_locates(d, d2, k);
    lemma_same_shape_locates(d, d2, k.parent());
    lemma_out_index(d.outputs, k.output_id());
    if k.level() == 2 {
        lemma_seg_index(d.outputs[d.out_of(k)].segments, k.segment_id());
    }
}


/// Stores mode `m` at a located scope.
fn put_mode_at(cfg: &mut DeviceConfig, scope: &Scope, loc: &Located, m: ModeConfig)
    requires
        old(cfg).wf(),
        m.wf(),
        old(cfg)@.has_scope(scope@),
        match scope@ {
            ScopeKey::Device => loc.output is None && loc.segment is None,
            ScopeKey::Output(_) => (loc.output matches Some(i) && i as int == old(cfg)@.out_of(scope@)) && loc.segment is None,
            ScopeKey::Segment(_, _) => (loc.output matches Some(i) && i as int == old(cfg)@.out_of(scope@))
                && (loc.segment matches Some(j) && j as int == old(cfg)@.seg_of(scope@)),
        },
    ensures
        final(cfg).wf(),
        final(cfg)@ == old(cfg)@.with_mode_at(scope@, m@),
{
    let ghost start = *cfg;
    let ghost k = scope@;
    let ghost mv = m@;
    match (loc.output, loc.segment) {
        (Some(i), Some(j)) => {
            proof {
                lemma_located_segment(cfg, k, i, j);
            }
            cfg.outputs[i].segments[j].mode = m;
            proof {
                assert forall|a: int| 0 <= a < cfg.outputs@.len() && a != i implies #[trigger] cfg.outputs@[a] == start.outputs@[a] by {}
                let so = start.outputs@[i as int];
                let no = cfg.outputs@[i as int];
                assert forall|b: int| 0 <= b < no.segments@.len() && b != j implies #[trigger] no.segments@[b] == so.segments@[b] by {}
                assert(no.wf()) by {
                    assert forall|b: int| 0 <= b < no.segments@.len() implies (#[trigger] no.segments@[b]).wf() by {
                        if b != j {
                            assert(so.segments@[b].wf());
                        }
                    }
                }
                assert(cfg.wf()) by {
                    assert forall|a: int| 0 <= a < cfg.outputs@.len() implies (#[trigger] cfg.outputs@[a]).wf() by {
                        if a != i {
                            assert(start.outputs@[a].wf());
                        }
                    }
                }
                assert(cfg@ =~~= start@.with_mode_at(k, mv));
            }
        },
        (Some(i), None) => {
            proof {
                lemma_located_output(cfg, k, i);
            }
            cfg.outputs[i].mode = m;
            proof {
                assert forall|a: int| 0 <= a < cfg.outputs@.len() && a != i implies #[trigger] cfg.outputs@[a] == start.outputs@[a] by {}
                assert(cfg.wf()) by {
                    assert forall|a: int| 0 <= a < cfg.outputs@.len() implies (#[trigger] cfg.outputs@[a]).wf() by {
                        assert(start.outputs@[a].wf());
                        if a == i {
                            assert forall|b: int| 0 <= b < cfg.outputs@[a].segments@.len() implies (#[trigger] cfg.outputs@[a].segments@[b]).wf() by {
                                assert(start.outputs@[a].segments@[b].wf());
                            }
                        }
                    }
                }
                assert(cfg@ =~~= start@.with_mode_at(k, mv));
            }
        },
        _ => {
            cfg.mode = m;
            proof {
                assert(cfg@ =~~= start@.with_mode_at(k, mv));
            }
        },
    }
}

/// Whether the effect that scope `k` runs can be resolved.
pub open spec fn has_resolved_effect(d: DeviceView, k: ScopeKey, catalog: EffectCatalog) -> bool {
    let l = d.effect_origin(k);
    l >= 0 && d.mode_at(k, l).params_for((d.mode_at(k, l).active->0).0, catalog) is Some
}

/// What merging `params` into the parameters of the effect that scope `k` runs yields:
/// the scope first becomes explicit with the effect it inherits (keeping its start time),
/// then `params` is merged into that effect's parameters at the scope.
pub open spec fn update_params_outcome(
    d: DeviceView,
    k: ScopeKey,
    params: Map<Seq<char>, String>,
    catalog: EffectCatalog,
    r: Result<(), String>,
    d2: DeviceView,
) -> bool {
    if !has_resolved_effect(d, k, catalog) {
        r matches Err(e) && e@ == "No active effect in this scope hierarchy"@ && d2 == d
    } else {
        let id = update_target(d, k);
        if !d.mode_at(k, k.level()).knows(id, catalog) {
            r matches Err(e) && e@ == effect_not_found(id) && d2 == d
        } else {
            r is Ok && exists|m2: ModeView| #[trigger] merged(update_base(d, k, catalog), m2, id, params, catalog)
                && d2 == d.with_mode_at(k, m2)
        }
    }
}

/// The effect whose parameters an update at scope `k` changes: the scope's own selection,
/// else the one it inherits.
pub open spec fn update_target(d: DeviceView, k: ScopeKey) -> Seq<char> {
    let m = d.mode_at(k, k.level());
    match m.active {
        Some(a) => a.0,
        None => (d.mode_at(k, d.effect_origin(k)).active->0).0,
    }
}

/// The mode of scope `k` made explicit for a parameter update.
pub open spec fn update_base(d: DeviceView, k: ScopeKey, catalog: EffectCatalog) -> ModeView {
    let m = d.mode_at(k, k.level());
    match m.active {
        Some(_) => m,
        None => {
            let origin = d.mode_at(k, d.effect_origin(k)).active->0;
            m.select(origin.0, origin.1, catalog)
        },
    }
}

/// Merges `params` into the parameters of the effect that `scope` runs, making the scope
/// select that effect explicitly first where it inherits it.
pub fn update_scope_effect_params(
    cfg: &mut DeviceConfig,
    port: &str,
    scope: &Scope,
    params: &ParamMap,
    catalog: &EffectCatalog,
) -> (r: Result<(), String>)
    requires
        old(cfg).wf(),
        catalog.wf(),
    ensures
        final(cfg).wf(),
        update_params_outcome(old(cfg)@, scope@, params@, *catalog, r, final(cfg)@),
{
    let resolved = match resolve_effect_for_scope(cfg, port, scope, catalog) {
        Some(r) => r,
        None => return Err(owned("No active effect in this scope hierarchy")),
    };
    let loc = locate(cfg, scope)?;
    let mut mode = match mode_for_scope(cfg, scope) {
        Some(m) => m.duplicate(),
        None => return Err(owned("No active effect in this scope hierarchy")),
    };
    let target = match &mode.active_effect {
        Some(a) => a.effect_id.clone(),
        None => {
            mode.set_effect(resolved.effect_id.as_str(), resolved.started_at, catalog)?;
            resolved.effect_id.clone()
        },
    };
    let ghost m1 = mode@;
    mode.merge_params(target.as_str(), params, catalog)?;
    let ghost m2 = mode@;
    proof {
        assert(merged(m1, m2, target@, params@, *catalog));
    }
    put_mode_at(cfg, scope, &loc, mode);
    proof {
        let d = old(cfg)@;
        let k = scope@;
        assert(update_target(d, k) == target@);
        assert(update_base(d, k, *catalog) == m1);
        assert(merged(update_base(d, k, *catalog), m2, update_target(d, k), params@, *catalog));
    }
    Ok(())
}

/// The largest brightness a scope stores (a percentage).
pub const MAX_BRIGHTNESS: u8 = 100;

/// What storing brightness `b` at scope `k` yields: refused above 100, where the scope
/// follows its parent, or where it does not exist.
pub open spec fn set_brightness_outcome(d: DeviceView, k: ScopeKey, b: u8, r: Result<(), String>, d2: DeviceView) -> bool {
    if b > MAX_BRIGHTNESS {
        r matches Err(e) && e@ == "Brightness must be between 0 and 100"@ && d2 == d
    } else if d.is_following(k) {
        r matches Err(e) && e@ == "Brightness is following parent mode at this scope"@ && d2 == d
    } else if !d.has_scope(k) {
        r matches Err(e) && e@ == scope_missing(d, k) && d2 == d
    } else {
        r is Ok && d2 == d.with_brightness_at(k, b)
    }
}

/// Stores a brightness (0..=100) at `scope`; refused above 100 and where the scope
/// follows its parent.
pub fn set_scope_brightness(cfg: &mut DeviceConfig, scope: &Scope, brightness: u8) -> (r: Result<(), String>)
    requires
        old(cfg).wf(),
    ensures
        final(cfg).wf(),
        set_brightness_outcome(old(cfg)@, scope@, brightness, r, final(cfg)@),
{
    if brightness > MAX_BRIGHTNESS {
        return Err(owned("Brightness must be between 0 and 100"));
    }
    if scope_is_following_mode(cfg, scope) {
        return Err(owned("Brightness is following parent mode at this scope"));
    }
    let loc = locate(cfg, scope)?;
    let ghost start = *cfg;
    let ghost k = scope@;
    match (loc.output, loc.segment) {
        (Some(i), Some(j)) => {
            proof {
                lemma_located_segment(cfg, k, i, j);
            }
            cfg.outputs[i].segments[j].brightness = brightness;
            proof {
                assert forall|a: int| 0 <= a < cfg.outputs@.len() && a != i implies #[trigger] cfg.outputs@[a] == start.outputs@[a] by {}
                let so = start.outputs@[i as int];
                let no = cfg.outputs@[i as int];
                assert forall|b: int| 0 <= b < no.segments@.len() && b != j implies #[trigger] no.segments@[b] == so.segments@[b] by {}
                assert(no.wf()) by {
                    assert forall|b: int| 0 <= b < no.segments@.len() implies (#[trigger] no.segments@[b]).wf() by {
                        assert(so.segments@[b].wf());
                    }
                }
                assert(cfg.wf()) by {
                    assert forall|a: int| 0 <= a < cfg.outputs@.len() implies (#[trigger] cfg.outputs@[a]).wf() by {
                        if a != i {
                            assert(start.outputs@[a].wf());
                        }
                    }
                }
                assert(cfg@ =~~= start@.with_brightness_at(k, brightness));
            }
        },
        (Some(i), None) => {
            proof {
                lemma_located_output(cfg, k, i);
            }
            cfg.outputs[i].brightness = brightness;
            proof {
                assert forall|a: int| 0 <= a < cfg.outputs@.len() && a != i implies #[trigger] cfg.outputs@[a] == start.outputs@[a] by {}
                assert(cfg.wf()) by {
                    assert forall|a: int| 0 <= a < cfg.outputs@.len() implies (#[trigger] cfg.outputs@[a]).wf() by {
                        assert(start.outputs@[a].wf());
                        if a == i {
                            assert forall|b: int| 0 <= b < cfg.outputs@[a].segments@.len() implies (#[trigger] cfg.outputs@[a].segments@[b]).wf() by {
                                assert(start.outputs@[a].segments@[b].wf());
                            }
                        }
                    }
                }
                assert(cfg@ =~~= start@.with_brightness_at(k, brightness));
            }
        },
        _ => {
            cfg.brightness = brightness;
            proof {
                assert(cfg@ =~~= start@.with_brightness_at(k, brightness));
            }
        },
    }
    Ok(())
}

/// A brightness stored at a scope that selects its own effect (or at the device) is
/// the brightness that scope uses.
pub proof fn law_stored_brightness_is_used(d: DeviceView, port: Seq<char>, k: ScopeKey, b: u8, r: Option<ResolvedBrightness>)
    requires
        d.has_scope(k),
        !d.is_following(k),
    ensures
        resolved_brightness_is(r, d.with_brightness_at(k, b), port, k) <==> (r matches Some(x) && x.value == b
            && scope_ref_is(x.from, port, k, k.level())),
{
    let d2 = d.with_brightness_at(k, b);
    lemma_with_mode_shape(d, k, ModeView { active: None, params: Map::empty(), rev: b as u64 });
    lemma_same_shape_locates(d, d2, k);
    lemma_out_index(d.outputs, k.output_id());
    if k.level() == 2 {
        lemma_seg_index(d.outputs[d.out_of(k)].segments, k.segment_id());
    }
}

} // verus!
