//! A stand-in instrument wrapper of the kind an instrument-specific driver
//! builds on top of a shared instrument handle.

use vstd::prelude::*;
use crate::instrument::{Instrument, InstrumentView};

verus! {

/// A driver-style wrapper around one shared instrument handle.
pub struct FakeInstrument3000 {
    pub(crate) inner: Instrument,
}

impl View for FakeInstrument3000 {
    type V = InstrumentView;

    closed spec fn view(&self) -> InstrumentView {
        self.inner@
    }
}

impl FakeInstrument3000 {
    /// Wraps a shared instrument handle.
    pub fn new(inner: Instrument) -> (r: FakeInstrument3000)
        ensures
            r@ == inner@,
    {
        FakeInstrument3000 { inner }
    }

    /// A device-specific entry point: this stand-in takes the handle and
    /// does nothing with it.
    pub fn instrument_specific_command(&self) {
    }
}

} // verus!
