//! Session configuration: the database path and the tick rate.

use vstd::prelude::*;

verus! {

/// The command-line arguments, as plain values.
#[derive(Debug)]
pub struct Args {
    pub database: String,
    pub tick_rate: u64,
}

/// The settings one session runs with.
#[derive(Debug)]
pub struct Config {
    pub database: String,
    pub tick_rate_ms: u64,
}

impl Config {
    /// The configuration with this tick rate, in milliseconds.
    pub fn tick_rate(self, rate: u64) -> (c: Config)
        ensures
            c.tick_rate_ms == rate,
            c.database@ == self.database@,
    {
        Config { tick_rate_ms: rate, ..self }
    }

    /// The configuration with this database path.
    pub fn database(self, path: &str) -> (c: Config)
        ensures
            c.database@ == path@,
            c.tick_rate_ms == self.tick_rate_ms,
    {
        Config { database: path.to_owned(), ..self }
    }
}

impl Default for Config {
    /// No database path and a zero tick rate.
    fn default() -> (c: Config)
        ensures
            c.database@ == Seq::<char>::empty(),
            c.tick_rate_ms == 0,
    {
        Config { database: String::new(), tick_rate_ms: 0 }
    }
}

} // verus!
