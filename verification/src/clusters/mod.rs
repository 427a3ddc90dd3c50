//! Command and attribute codecs of the clusters that commissioning uses.

pub mod general_commissioning;
pub mod network_commissioning;
pub mod response;
