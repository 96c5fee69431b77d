//! Polling engine for fleets of PLC systems: host topology, reachability
//! bookkeeping, device alarm transactions and the per-cycle orchestration.

pub mod system;
pub mod text;
pub mod importer;
pub mod prober;
pub mod plc_comms;
pub mod poller;
pub mod status;
