//! The options of a deployment that the engine knows.
use crate::engine::iteration::InstrumentIteration;
use vstd::prelude::*;

verus! {

/// Where the events go, and in which order the instruments are gone through
/// when all queues are matched.
#[derive(Debug, PartialEq, Eq)]
pub struct Config {
    pub publisher_endpoint: String,
    pub instrument_iteration: InstrumentIteration,
}

impl Clone for Config {
    fn clone(&self) -> (config: Self)
        ensures
            config == *self,
    {
        Config {
            publisher_endpoint: self.publisher_endpoint.clone(),
            instrument_iteration: self.instrument_iteration,
        }
    }
}

impl Config {
    pub fn new(publisher_endpoint: String, instrument_iteration: InstrumentIteration) -> (config:
        Self)
        ensures
            config == (Config { publisher_endpoint, instrument_iteration }),
    {
        Config { publisher_endpoint, instrument_iteration }
    }

    /// The options with the endpoint as given and the order of the
    /// instruments as named, if `iteration` names one: `id-asc` or
    /// `ticker-asc`.
    pub fn read(publisher_endpoint: String, iteration: &str) -> (config: Option<Self>)
        ensures
            config == match InstrumentIteration::of_text(iteration@) {
                Some(instrument_iteration) => Some(
                    Config { publisher_endpoint, instrument_iteration },
                ),
                None => None,
            },
    {
        match InstrumentIteration::parse(iteration) {
            Some(instrument_iteration) => Some(Config { publisher_endpoint, instrument_iteration }),
            None => None,
        }
    }
}

} // verus!
