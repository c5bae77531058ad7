//! Fixed per-run parameters of the simulation and the representational
//! bounds that keep all fixed-point arithmetic inside `i64`.

use vstd::prelude::*;

verus! {

/// Largest canvas dimension, grid spacing or coordinate, in milli-units.
pub const DIM_MAX: i64 = 67_108_864;

/// Largest growth a single tick may add to a radius, in milli-units.
pub const GROW_MAX: i64 = 67_108_864;

/// Largest radius a circle can ever reach. A circle that is still expanding
/// after the freeze phase lies strictly inside the canvas, so its radius is
/// below `DIM_MAX`; one tick's growth then adds at most `GROW_MAX`.
pub const RADIUS_MAX: i64 = 134_217_728;

/// Largest border width, in milli-units.
pub const BORDER_MAX: i64 = 1_048_576;

/// Largest expansion rate, in milli-units per second.
pub const RATE_MAX: i64 = 67_108_864;

/// Largest elapsed time a single tick may be given, in milliseconds.
pub const ELAPSED_MAX: i64 = 2_147_483_648;

/// Largest spawn or attempt interval, in milliseconds.
pub const INTERVAL_MAX: i64 = 2_147_483_648;

/// Cap on the banked placement-attempt budget, in milliseconds, so the
/// accumulator cannot overflow however long the simulation runs.
pub const CREDIT_MAX: i64 = 1_099_511_627_776;

/// The parameters of one run, all fixed at startup.
///
/// Lengths are in milli-units, times in milliseconds, the expansion rate in
/// milli-units per second.
#[derive(Clone, Copy, PartialEq, Eq, Structural, Debug)]
pub struct Config {
    /// Canvas width.
    pub width: i64,
    /// Canvas height.
    pub height: i64,
    /// Spacing of the placement grid.
    pub spacing: i64,
    /// Stroke width added to the effective collision radius.
    pub border: i64,
    /// Radius growth per second of an expanding circle.
    pub rate: i64,
    /// Time between spawn attempts.
    pub spawn_interval: i64,
    /// Attempt budget one placement attempt consumes; placement attempts are
    /// rate-limited to one per this much real time.
    pub attempt_interval: i64,
}

/// Mathematical image of a `Config`.
pub ghost struct ConfigModel {
    pub width: int,
    pub height: int,
    pub spacing: int,
    pub border: int,
    pub rate: int,
    pub spawn_interval: int,
    pub attempt_interval: int,
}

impl View for Config {
    type V = ConfigModel;

    open spec fn view(&self) -> ConfigModel {
        ConfigModel {
            width: self.width as int,
            height: self.height as int,
            spacing: self.spacing as int,
            border: self.border as int,
            rate: self.rate as int,
            spawn_interval: self.spawn_interval as int,
            attempt_interval: self.attempt_interval as int,
        }
    }
}

/// A configuration whose values lie inside the representational bounds.
pub open spec fn config_wf(cfg: ConfigModel) -> bool {
    &&& 0 < cfg.width <= DIM_MAX as int
    &&& 0 < cfg.height <= DIM_MAX as int
    &&& 0 < cfg.spacing <= DIM_MAX as int
    &&& 0 <= cfg.border <= BORDER_MAX as int
    &&& 0 <= cfg.rate <= RATE_MAX as int
    &&& 0 < cfg.spawn_interval <= INTERVAL_MAX as int
    &&& 0 < cfg.attempt_interval <= INTERVAL_MAX as int
}

impl Config {
    /// The well-formedness carried by every simulation.
    pub open spec fn wf(&self) -> bool {
        config_wf(self@)
    }
}

} // verus!
