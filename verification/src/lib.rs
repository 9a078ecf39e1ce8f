//! Verified core of a cooling-control daemon for an Aquacomputer Quadro fan
//! controller and D5 Next pump: the control reports sent to the devices, the
//! routing of temperature sources to fan and pump channels, the location of
//! temperature sensors among the hwmon devices, the notification command
//! line, and the merge of a configuration file with its defaults.

pub mod aquacomputer;
pub mod checksum;
pub mod config;
pub mod notify;
pub mod routing;
pub mod sensors;
pub mod text;
