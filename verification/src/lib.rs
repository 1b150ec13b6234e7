//! Deterministic virtual time.
//!
//! - [`time`]: instants that wrap round a ring of 2^64 nanoseconds, and
//!   durations that clamp at the ends of their range.
//! - [`clock`]: the clock capability and the manually driven clock;
//!   [`rate`], [`host`] and [`autoclock`]: the other clocks; [`systick`]: the
//!   bookkeeping of a clock that polls a hardware timer.
//! - [`hlc`]: a hybrid logical clock, whose timestamps follow physical time
//!   when it moves and a logical counter when it does not.
//! - [`event`], [`scheduler`] and [`fixed`]: discrete-event schedulers over
//!   any clock, one that grows and one of fixed capacity; [`queue`]: the
//!   priority queue behind the growing one.
//! - [`civil`] and [`calendar`]: days, dates and the text of an instant;
//!   [`small`]: the buffer of fixed size that the text can be had in.

pub mod autoclock;
pub mod calendar;
pub mod civil;
pub mod clock;
pub mod event;
pub mod fixed;
pub mod hlc;
pub mod host;
pub mod queue;
pub mod rate;
pub mod scheduler;
pub mod small;
pub mod systick;
pub mod time;

pub use autoclock::{AutoClock, SoftClock};
pub use calendar::{Calendar, CivilDays};
pub use clock::{Clock, ManualClock};
pub use event::{Event, EventId};
pub use hlc::{KairosHlc, KairosTs, KairosTs16};
pub use host::StdClock;
pub use rate::{Q32_32Rate, Rate, RateClock};
pub use scheduler::Scheduler;
pub use systick::SystickClockState;
pub use time::{VDuration, VInstant};
