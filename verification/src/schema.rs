//! The parts of the FDSN extra-header schema (version 1.0) that hold no floating point
//! value. Their JSON form is written and read outside this library.

use vstd::prelude::*;

verus! {

/// Description of a clock system; the same shape describes a data logger and a sensor.
#[derive(Debug, Clone)]
pub struct Clock {
    /// Model of equipment.
    pub model: Option<String>,
    /// Serial number of equipment.
    pub serial: Option<String>,
}

/// Quality flags of a record.
#[derive(Debug, Clone)]
pub struct Flags {
    /// Amplifier saturation detected.
    pub amplifier_saturation: Option<bool>,
    /// Digitizer clipping detected.
    pub digitizer_clipping: Option<bool>,
    /// Deprecated: end of time series.
    pub end_of_time_series: Option<bool>,
    /// A digital filter may be charging.
    pub filter_charging: Option<bool>,
    /// Glitches detected.
    pub glitches: Option<bool>,
    /// Deprecated: long record read (possibly no problem).
    pub long_record_read: Option<bool>,
    /// Sensor mass position is offscale as defined by the vendor or operator.
    pub mass_position_offscale: Option<bool>,
    /// Deprecated: missing data.
    pub missing_data: Option<bool>,
    /// Deprecated: short record read (record padded).
    pub short_record_read: Option<bool>,
    /// Spikes detected.
    pub spikes: Option<bool>,
    /// Deprecated: start of time series.
    pub start_of_time_series: Option<bool>,
    /// Deprecated: station volume parity error possibly present.
    pub station_volume_parity_error: Option<bool>,
    /// Deprecated: telemetry synchronization error.
    pub telemetry_sync_error: Option<bool>,
}

/// Headers related to sensor recentering (mass, gimbal, etc.).
#[derive(Debug, Clone)]
pub struct Recenter {
    /// List of recentering sequences.
    pub sequence: Option<Vec<RecenterSequence>>,
}

/// One recentering.
#[derive(Debug, Clone)]
pub struct RecenterSequence {
    /// Recenter begin time.
    pub begin_time: Option<String>,
    /// Estimate of recenter end time.
    pub end_time: Option<String>,
    /// Trigger of the recentering: AUTOMATIC or MANUAL.
    pub trigger: Option<String>,
    /// Type of recenter: Mass, Gimbal, etc. When it is absent a mass recenter may be
    /// assumed.
    pub sequence_type: Option<String>,
}

} // verus!
