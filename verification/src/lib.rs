//! Connection racing across address families ("Happy Eyeballs").
//!
//! A client that can reach its destination over several candidate addresses tries
//! them in an order in which the two address families take turns, starts the attempts
//! a fixed delay apart, and keeps the first connection that succeeds.
//!
//! The crate decides and leaves the doing to its caller: [`sort`] orders the
//! candidates, [`future`] drives one race as a machine of events and actions, and the
//! types below carry the configuration.

pub mod address;
pub mod exhaustion;
pub mod future;
pub mod interleaving;
pub mod sort;
pub mod timer;

use crate::future::{HappyEyeballsFut, RaceView};
use crate::timer::duration_nanos;
use std::time::Duration;
use vstd::prelude::*;

verus! {

/// The configuration of races: the delay between the starts of two attempts.
#[derive(Debug)]
pub struct HappyEyeballsLayer {
    dur: Duration,
}

/// A connector together with the configuration under which it is raced.
pub struct HappyEyeballs<MC> {
    dur: Duration,
    make_conn: MC,
}

impl Clone for HappyEyeballsLayer {
    fn clone(&self) -> (layer: Self)
        ensures
            layer == *self,
    {
        HappyEyeballsLayer { dur: self.dur }
    }
}

impl HappyEyeballsLayer {
    /// The delay between the starts of two attempts.
    pub closed spec fn spec_attempt_delay(&self) -> Duration {
        self.dur
    }

    /// The default configuration: 250 milliseconds between the starts of two
    /// attempts.
    pub fn new() -> (layer: HappyEyeballsLayer)
        ensures
            duration_nanos(layer.attempt_delay()) == 250_000_000,
    {
        HappyEyeballsLayer { dur: Duration::from_millis(250) }
    }

    /// The same configuration with `dur` between the starts of two attempts.
    pub fn delay(self, dur: Duration) -> (layer: Self)
        ensures
            layer.attempt_delay() == dur,
    {
        let mut layer = self;
        layer.dur = dur;
        layer
    }

    /// The delay between the starts of two attempts.
    #[verifier::when_used_as_spec(spec_attempt_delay)]
    pub fn attempt_delay(&self) -> (dur: Duration)
        ensures
            dur == self.attempt_delay(),
    {
        self.dur
    }

    /// Puts the connector `service` under this configuration.
    pub fn layer<MC>(&self, service: MC) -> (raced: HappyEyeballs<MC>)
        ensures
            raced.attempt_delay() == self.attempt_delay(),
            *raced.get_ref() == service,
    {
        HappyEyeballs { make_conn: service, dur: self.dur }
    }
}

impl<MC> HappyEyeballs<MC> {
    /// The delay between the starts of two attempts.
    pub closed spec fn spec_attempt_delay(&self) -> Duration {
        self.dur
    }

    /// The connector.
    pub closed spec fn spec_get_ref(&self) -> &MC {
        &self.make_conn
    }

    /// The delay between the starts of two attempts.
    #[verifier::when_used_as_spec(spec_attempt_delay)]
    pub fn attempt_delay(&self) -> (dur: Duration)
        ensures
            dur == self.attempt_delay(),
    {
        self.dur
    }

    /// The connector.
    #[verifier::when_used_as_spec(spec_get_ref)]
    pub fn get_ref(&self) -> (service: &MC)
        ensures
            service == self.get_ref(),
    {
        &self.make_conn
    }

    /// The connector, to work on; the configuration stays as it is.
    pub fn get_mut(&mut self) -> (service: &mut MC)
        ensures
            *service == *old(self).get_ref(),
            *final(self).get_ref() == *final(service),
            final(self).attempt_delay() == old(self).attempt_delay(),
    {
        &mut self.make_conn
    }

    /// Begins a race at the clock reading `now`, under this configuration.
    pub fn call(&self, now: u128) -> (fut: HappyEyeballsFut)
        ensures
            fut@ == RaceView::new(duration_nanos(self.attempt_delay()), now as nat),
            fut@.ips.wf(),
    {
        HappyEyeballsFut::new(self.dur, now)
    }
}

} // verus!
