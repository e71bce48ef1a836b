//! A date and time library built on one timeline.

pub mod calendar;
pub mod clock;
pub mod date;
pub mod datetime;
pub mod directive_laws;
pub mod duration;
pub mod error;
pub mod format;
pub mod offset;
pub mod rendering;
pub mod rfc2822_round_trip;
pub mod round_trip;
pub mod text;
pub mod ticks;
pub mod scan;
pub mod span_round_trip;
pub mod strftime;
pub mod time;
pub mod units;
pub mod write;
pub mod zone;
pub mod zone_order;
pub mod zoned;

pub use crate::calendar::{Month, Weekday};
pub use crate::date::Date;
pub use crate::datetime::CivilDateTime;
pub use crate::duration::Duration;
pub use crate::error::{Error, ErrorKind};
pub use crate::format::FractionDigits;
pub use crate::offset::Offset;
pub use crate::ticks::Ticks;
pub use crate::time::TimeOfDay;
pub use crate::units::{Days, IsoWeek, Months};
pub use crate::zone::Zone;
pub use crate::zoned::Zoned;
