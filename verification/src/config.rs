//! The encoder's configuration: a read-only value threaded through every
//! encoding call, selecting identifier casing per name category, numeric
//! format per numeric field, and the sibling ordering of register and
//! cluster entries.

use vstd::prelude::*;

use crate::cases::CaseStyle;
use crate::numbers::NumberFormat;

verus! {

/// A sibling ordering for register/cluster entries.
#[derive(Clone, Copy, Debug, PartialEq, Eq, Structural)]
pub enum Sorting {
    /// By address offset, ascending.
    Offset,
    /// By address offset, descending.
    OffsetReversed,
    /// By name, lexicographically.
    Name,
}

/// Whether all registers are emitted before all clusters or the reverse.
#[derive(Clone, Copy, Debug, PartialEq, Eq, Structural)]
pub enum RegistersOrClustersFirst {
    /// All registers first, then all clusters.
    Registers,
    /// All clusters first, then all registers.
    Clusters,
}

/// The formatting policy. Every selection is optional: an absent case
/// style passes names through unchanged, an absent number format renders
/// in decimal, absent ordering directives preserve source order.
#[derive(Clone, Copy, Debug)]
pub struct Config {
    /// Case style for peripheral-level names (the peripheral's own name,
    /// alternate-peripheral references, name affixes, header struct name,
    /// derivation references).
    pub peripheral_name: Option<CaseStyle>,
    /// Case style for register names.
    pub register_name: Option<CaseStyle>,
    /// Case style for cluster names.
    pub cluster_name: Option<CaseStyle>,
    /// Number format for the peripheral's base address.
    pub peripheral_base_address: Option<NumberFormat>,
    /// Number format for register and cluster address offsets.
    pub address_offset: Option<NumberFormat>,
    /// Number format for register-property values (size, reset value,
    /// reset mask) and other plain numeric fields.
    pub property_value: Option<NumberFormat>,
    /// The sort key for register/cluster siblings, if any.
    pub register_cluster_sorting: Option<Sorting>,
    /// The partition directive for register/cluster siblings, if any.
    pub registers_or_clusters_first: Option<RegistersOrClustersFirst>,
}

impl Default for Config {
    /// The policy that changes nothing: names pass through, numbers are
    /// decimal, source order is preserved.
    fn default() -> (r: Self)
        ensures
            r.peripheral_name is None,
            r.register_name is None,
            r.cluster_name is None,
            r.peripheral_base_address is None,
            r.address_offset is None,
            r.property_value is None,
            r.register_cluster_sorting is None,
            r.registers_or_clusters_first is None,
    {
        Config {
            peripheral_name: None,
            register_name: None,
            cluster_name: None,
            peripheral_base_address: None,
            address_offset: None,
            property_value: None,
            register_cluster_sorting: None,
            registers_or_clusters_first: None,
        }
    }
}

} // verus!
