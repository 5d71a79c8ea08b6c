//! Parsing of German date and time expressions ("in 5m", "Morgen um 10:00",
//! "10.11.2025 14:00") into an absolute instant in a time zone, with the
//! grammar, its results and its failures stated as contracts, and the state
//! kept for the giveaways whose end they name.
pub mod absolute;
pub mod calendar;
pub mod datetime;
pub mod forms;
pub mod relative;
pub mod state;
pub mod text;

pub use calendar::{instant_plus, MAX_INSTANT, MIN_INSTANT, CalendarDate, ClockTime, Duration, Zone};
pub use datetime::parse_time;
pub use state::{Giveaway, GiveawayId, GuildState};
