use vstd::prelude::*;

verus! {

/// What an output device offers in one of its supported configurations: whether its
/// samples are `f32`, and the range of rates it runs at.
#[derive(Clone, Copy, Debug, PartialEq, Eq)]
pub struct OutputConfigRange {
    pub is_f32: bool,
    pub min_rate: u32,
    pub max_rate: u32,
}

/// The configuration is `f32` and runs at `rate`.
pub open spec fn covers_rate(c: OutputConfigRange, rate: u32) -> bool {
    c.is_f32 && c.min_rate <= rate && rate <= c.max_rate
}

/// `i` is the first configuration of `configs` that `ok` accepts.
pub open spec fn is_first(configs: Seq<OutputConfigRange>, ok: spec_fn(OutputConfigRange) -> bool, i: int) -> bool {
    &&& 0 <= i < configs.len()
    &&& ok(configs[i])
    &&& forall|j: int| 0 <= j < i ==> !ok(#[trigger] configs[j])
}

/// The first configuration `ok` accepts, if any does.
pub open spec fn found_first(
    configs: Seq<OutputConfigRange>,
    ok: spec_fn(OutputConfigRange) -> bool,
    r: Option<usize>,
) -> bool {
    match r {
        Some(i) => is_first(configs, ok, i as int),
        None => forall|j: int| 0 <= j < configs.len() ==> !ok(#[trigger] configs[j]),
    }
}

/// The monitor's configuration: the first `f32` one that runs at the input's rate, so
/// that the monitor plays the input without resampling; `None` when there is none, and
/// the device's default configuration is used instead.
pub fn monitor_config(configs: &Vec<OutputConfigRange>, input_rate: u32) -> (r: Option<usize>)
    ensures
        found_first(configs@, |c: OutputConfigRange| covers_rate(c, input_rate), r),
{
    let mut i: usize = 0;
    while i < configs.len()
        invariant
            i <= configs@.len(),
            forall|j: int| 0 <= j < i ==> !covers_rate(#[trigger] configs@[j], input_rate),
        decreases configs@.len() - i,
    {
        let c = configs[i];
        if c.is_f32 && c.min_rate <= input_rate && input_rate <= c.max_rate {
            return Some(i);
        }
        i += 1;
    }
    None
}

/// The rate the monitor runs at: the input's when a configuration matched it, else the
/// default configuration's.
pub fn monitor_stream_rate(matched: bool, input_rate: u32, default_rate: u32) -> (rate: u32)
    ensures
        rate == if matched {
            input_rate
        } else {
            default_rate
        },
{
    if matched {
        input_rate
    } else {
        default_rate
    }
}

/// The configuration the drone and the test note play through: the first `f32` one;
/// `None` when there is none, which is an error for them.
pub fn first_f32_config(configs: &Vec<OutputConfigRange>) -> (r: Option<usize>)
    ensures
        found_first(configs@, |c: OutputConfigRange| c.is_f32, r),
{
    let mut i: usize = 0;
    while i < configs.len()
        invariant
            i <= configs@.len(),
            forall|j: int| 0 <= j < i ==> !(#[trigger] configs@[j]).is_f32,
        decreases configs@.len() - i,
    {
        if configs[i].is_f32 {
            return Some(i);
        }
        i += 1;
    }
    None
}

} // verus!
