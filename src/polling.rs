use vstd::prelude::*;

use std::sync::mpsc::Sender;

verus! {

/// Declares std's `mpsc::Sender`, so that `Polling` can hold the sending end of a
/// shutdown channel; nothing is assumed of it.
#[verifier::external_type_specification]
#[verifier::external_body]
#[verifier::reject_recursive_types(T)]
pub struct ExSender<T>(Sender<T>);

/// The handle on the background synchronizer. The synchronizer runs for as long
/// as the sending end of its shutdown channel is held here; dropping that end
/// tells it to stop after the cycle in flight.
pub struct Polling {
    handle: Option<Sender<()>>,
}

impl Polling {
    /// Whether a synchronizer is running.
    pub closed spec fn running(&self) -> bool {
        self.handle is Some
    }

    /// No synchronizer running.
    pub fn new() -> (r: Polling)
        ensures
            !r.running(),
    {
        Polling { handle: None }
    }

    /// Takes charge of a freshly started synchronizer, whose shutdown channel has
    /// `handle` as its sending end. A synchronizer already running is stopped.
    pub fn start_polling(&mut self, handle: Sender<()>)
        ensures
            final(self).running(),
    {
        if self.handle.is_some() {
            self.stop_polling();
        }
        self.handle = Some(handle);
    }

    /// Stops the running synchronizer, if any, by closing its shutdown channel.
    pub fn stop_polling(&mut self)
        ensures
            !final(self).running(),
    {
        let _closed = self.handle.take();
    }

    /// Whether a synchronizer is running.
    pub fn is_polling(&self) -> (r: bool)
        ensures
            r == self.running(),
    {
        self.handle.is_some()
    }
}

} // verus!
