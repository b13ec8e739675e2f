//! Snapshots of a device's configuration as shown to the user, and the decision whether
//! its render loop runs.
use vstd::prelude::*;
use crate::params::{EffectCatalog, ParamMap};
use crate::scope::{
    DeviceConfig, DeviceView, ResolvedBrightness, ResolvedEffect, Scope, ScopeKey, ScopeRef, brightness_for_scope,
    mode_for_scope, resolve_brightness_for_scope, resolve_effect_for_scope, resolved_brightness_is,
    resolved_effect_is, scope_is_following_mode,
};

verus! {

/// The mode of one scope: its own selection and what it runs after inheritance.
#[derive(Debug)]
pub struct ScopeModeState {
    /// Explicit selection at this scope; `None` means "inherit parent".
    pub selected_effect_id: Option<String>,
    /// The effect the scope runs after inheritance; `None` means off.
    pub effective_effect_id: Option<String>,
    /// The parameters of the effective effect, from the scope it comes from.
    pub effective_params: Option<ParamMap>,
    /// Where the effective effect comes from.
    pub effective_from: Option<ScopeRef>,
}

/// The brightness of one scope: stored and effective.
#[derive(Debug)]
pub struct ScopeBrightnessState {
    /// Stored brightness at this scope (0..=100), kept even while following.
    pub value: u8,
    /// The brightness the scope uses after inheritance.
    pub effective_value: u8,
    /// Where the effective brightness comes from.
    pub effective_from: Option<ScopeRef>,
    /// Whether this scope follows its parent (it selects no effect itself).
    pub is_following: bool,
}

/// `s` describes the mode of scope `k`.
pub open spec fn mode_state_is(s: ScopeModeState, d: DeviceView, port: Seq<char>, k: ScopeKey, catalog: EffectCatalog) -> bool {
    &&& match s.selected_effect_id {
        Some(id) => d.has_scope(k) && (d.mode_at(k, k.level()).active matches Some(a) && id@ == a.0),
        None => !d.has_scope(k) || d.mode_at(k, k.level()).active is None,
    }
    &&& exists|r: Option<ResolvedEffect>| #[trigger] resolved_effect_is(r, d, port, k, catalog) && match r {
        Some(x) => (s.effective_effect_id matches Some(e) && e@ == x.effect_id@)
            && (s.effective_params matches Some(p) && p.entries@ == x.params.entries@)
            && s.effective_from == Some(x.from),
        None => s.effective_effect_id is None && s.effective_params is None && s.effective_from is None,
    }
}

/// `s` describes the brightness of scope `k`.
pub open spec fn brightness_state_is(s: ScopeBrightnessState, d: DeviceView, port: Seq<char>, k: ScopeKey) -> bool {
    let stored = if d.has_scope(k) { d.brightness_at(k, k.level()) } else { 100u8 };
    &&& s.value == stored
    &&& s.is_following == d.is_following(k)
    &&& exists|r: Option<ResolvedBrightness>| #[trigger] resolved_brightness_is(r, d, port, k) && match r {
        Some(x) => s.effective_value == x.value && s.effective_from == Some(x.from),
        None => s.effective_value == stored && s.effective_from is None,
    }
}

/// The mode of a scope as shown to the user.
pub fn build_mode_state(cfg: &DeviceConfig, port: &str, scope: &Scope, catalog: &EffectCatalog) -> (s: ScopeModeState)
    requires
        cfg.wf(),
        catalog.wf(),
    ensures
        mode_state_is(s, cfg@, port@, scope@, *catalog),
{
    let selected = match mode_for_scope(cfg, scope) {
        Some(m) => m.selected_effect_id(),
        None => None,
    };
    let resolved = resolve_effect_for_scope(cfg, port, scope, catalog);
    let ghost rv = resolved;
    let s = match resolved {
        Some(r) => ScopeModeState {
            selected_effect_id: selected,
            effective_effect_id: Some(r.effect_id),
            effective_params: Some(r.params),
            effective_from: Some(r.from),
        },
        None => ScopeModeState {
            selected_effect_id: selected,
            effective_effect_id: None,
            effective_params: None,
            effective_from: None,
        },
    };
    proof {
        assert(resolved_effect_is(rv, cfg@, port@, scope@, *catalog));
    }
    s
}

/// The brightness of a scope as shown to the user.
pub fn build_brightness_state(cfg: &DeviceConfig, port: &str, scope: &Scope) -> (s: ScopeBrightnessState)
    requires
        cfg.wf(),
    ensures
        brightness_state_is(s, cfg@, port@, scope@),
{
    let stored = match brightness_for_scope(cfg, scope) {
        Some(b) => b,
        None => 100,
    };
    let resolved = resolve_brightness_for_scope(cfg, port, scope);
    let ghost rv = resolved;
    let is_following = scope_is_following_mode(cfg, scope);
    let s = match resolved {
        Some(r) => ScopeBrightnessState { value: stored, effective_value: r.value, effective_from: Some(r.from), is_following },
        None => ScopeBrightnessState { value: stored, effective_value: stored, effective_from: None, is_following },
    };
    proof {
        assert(resolved_brightness_is(rv, cfg@, port@, scope@));
    }
    s
}

/// Whether any scope of the device selects an effect.
pub open spec fn any_effect(d: DeviceView) -> bool {
    ||| d.mode.active is Some
    ||| exists|i: int| 0 <= i < d.outputs.len() && (#[trigger] d.outputs[i]).mode.active is Some
    ||| exists|i: int, j: int| 0 <= i < d.outputs.len() && 0 <= j < d.outputs[i].segments.len()
        && (#[trigger] d.outputs[i].segments[j]).mode.active is Some
}

/// Whether any scope of the device selects an effect (the render loop runs exactly then).
pub fn device_has_any_effect(cfg: &DeviceConfig) -> (b: bool)
    ensures
        b == any_effect(cfg@),
{
    if cfg.mode.active_effect.is_some() {
        return true;
    }
    let mut i: usize = 0;
    while i < cfg.outputs.len()
        invariant
            i <= cfg.outputs@.len(),
            cfg@.mode.active is None,
            forall|a: int| 0 <= a < i ==> (#[trigger] cfg@.outputs[a]).mode.active is None,
            forall|a: int, b: int| 0 <= a < i && 0 <= b < cfg@.outputs[a].segments.len()
                ==> (#[trigger] cfg@.outputs[a].segments[b]).mode.active is None,
        decreases cfg.outputs.len() - i,
    {
        let out = &cfg.outputs[i];
        if out.mode.active_effect.is_some() {
            proof {
                assert(cfg@.outputs[i as int].mode.active is Some);
            }
            return true;
        }
        let mut j: usize = 0;
        while j < out.segments.len()
            invariant
                j <= out.segments@.len(),
                i < cfg.outputs@.len(),
                out == cfg.outputs@[i as int],
                forall|b: int| 0 <= b < j ==> (#[trigger] cfg@.outputs[i as int].segments[b]).mode.active is None,
            decreases out.segments.len() - j,
        {
            if out.segments[j].mode.active_effect.is_some() {
                proof {
                    assert(cfg@.outputs[i as int].segments[j as int].mode.active is Some);
                }
                return true;
            }
            j = j + 1;
        }
        i = i + 1;
    }
    false
}

/// What to do with a device's render loop.
#[derive(Clone, Copy, Debug, PartialEq, Eq, Structural)]
pub enum RunnerAction {
    Start,
    Stop,
    Keep,
}

/// The render loop starts when some scope selects an effect and none runs, and stops
/// when no scope selects one and it runs.
pub fn runner_action(should_run: bool, running: bool) -> (a: RunnerAction)
    ensures
        a == (if should_run && !running {
            RunnerAction::Start
        } else if !should_run && running {
            RunnerAction::Stop
        } else {
            RunnerAction::Keep
        }),
{
    if should_run && !running {
        RunnerAction::Start
    } else if !should_run && running {
        RunnerAction::Stop
    } else {
        RunnerAction::Keep
    }
}

} // verus!
