//! The weather widget: the one backend kind currently defined.  Its
//! auxiliary state is a per-widget counter; each run reports the counter as
//! the temperature and advances it by one.

use vstd::prelude::*;
use vstd::string::*;

use crate::encode::{json_number, spec_decimal};
use crate::widget::{BackendContext, BackendError, BackendState, BackendStateStorage};

verus! {

/// Marker for the weather widget kind.
#[derive(Debug)]
pub struct WeatherWidget {}

/// Static configuration of one weather widget.
#[derive(Debug)]
pub struct WeatherWidgetConfig {
    pub location: [i64; 2],
}

/// The output one weather run shares: the observed temperature.
#[derive(Debug, PartialEq, Eq, Structural, Clone, Copy)]
pub struct WeatherWidgetState {
    pub temperature: u64,
}

/// The weather backend's private auxiliary state: a running counter.
#[derive(Debug, PartialEq, Eq, Structural, Clone, Copy)]
pub struct WeatherBackendState {
    pub value: u64,
}

/// The counter the weather backend observes when its incoming state slot is
/// `st`: the stored value, or zero on first access.
pub open spec fn spec_counter_of(st: Option<BackendState>) -> u64 {
    match st {
        Some(BackendState::Weather(s)) => s.value,
        None => 0,
    }
}

impl WeatherWidget {
    /// The weather backend computation: observes the per-widget counter,
    /// reports it as the temperature, and advances the counter by one.
    pub fn run(_config: &WeatherWidgetConfig, ctx: &mut BackendContext) -> (r: Result<
        Option<WeatherWidgetState>,
        BackendError,
    >)
        requires
            spec_counter_of(old(ctx).state) < u64::MAX,
        ensures
            final(ctx).id == old(ctx).id,
            (r == Ok::<Option<WeatherWidgetState>, BackendError>(
                Some(WeatherWidgetState { temperature: spec_counter_of(old(ctx).state) }),
            )),
            final(ctx).state == Some(
                BackendState::Weather(
                    WeatherBackendState {
                        value: (spec_counter_of(old(ctx).state) + 1) as u64,
                    },
                ),
            ),
    {
        let state = ctx.get_state_or(WeatherBackendState { value: 0 });
        let new = WeatherWidgetState { temperature: state.value };
        ctx.put_state(WeatherBackendState { value: state.value + 1 });
        Ok(Some(new))
    }
}

/// Auxiliary state persists and evolves across repeated runs of the same
/// widget: when one run against `st0` leaves the store in `st1`, as
/// [`crate::widget::run`] ensures, the next run of that widget observes a
/// counter one above the one just reported — the store is keyed per widget
/// and never reset between runs.
pub proof fn lemma_counter_persists(
    st0: BackendStateStorage,
    st1: BackendStateStorage,
    w: Seq<char>,
)
    requires
        spec_counter_of(st0.slot_view(w)) < u64::MAX,
        st1.has_state(w),
        st1.state_of(w) == BackendState::Weather(
            (WeatherBackendState { value: (spec_counter_of(st0.slot_view(w)) + 1) as u64 }),
        ),
    ensures
        spec_counter_of(st1.slot_view(w)) == spec_counter_of(st0.slot_view(w)) + 1,
{
}

/// The JSON text that encodes a weather output with temperature `t`.
pub open spec fn spec_output_json(t: nat) -> Seq<char> {
    "{\"temperature\":"@ + spec_decimal(t) + "}"@
}

/// Encodes a weather output as JSON text, the portable encoding every run
/// record carries its output in.
pub fn encode_output(out: &WeatherWidgetState) -> (r: String)
    ensures
        r@ == spec_output_json(out.temperature as nat),
{
    let mut s = String::from_str("{\"temperature\":");
    let digits = json_number(out.temperature);
    s.append(digits.as_str());
    s.append("}");
    s
}

} // verus!
