//! The in-memory model the encoder consumes: immutable, caller-owned
//! snapshots of a peripheral and its parts. The encoder neither owns nor
//! mutates them; validation and derivation resolution happen upstream.

use vstd::prelude::*;

use crate::access::Access;
use crate::modified_write_values::ModifiedWriteValues;

verus! {

/// A register-properties block: every field optional, emitted if and only
/// if present.
pub struct RegisterProperties {
    /// Bit width of a register.
    pub size: Option<u32>,
    /// Access rights.
    pub access: Option<Access>,
    /// Register value after reset.
    pub reset_value: Option<u64>,
    /// Mask of reset-value bits that are defined.
    pub reset_mask: Option<u64>,
}

impl RegisterProperties {
    /// A block with every field absent.
    pub fn empty() -> (r: Self)
        ensures
            r.size is None,
            r.access is None,
            r.reset_value is None,
            r.reset_mask is None,
    {
        RegisterProperties { size: None, access: None, reset_value: None, reset_mask: None }
    }
}

/// An interrupt line of a peripheral.
pub struct Interrupt {
    /// The interrupt's name.
    pub name: String,
    /// An optional description.
    pub description: Option<String>,
    /// The interrupt number.
    pub value: u32,
}

/// An address block claimed by a peripheral.
pub struct AddressBlock {
    /// Start offset relative to the peripheral's base address.
    pub offset: u32,
    /// Number of address units.
    pub size: u32,
    /// What the block is used for.
    pub usage: String,
}

/// An array descriptor: dimension, index and stride of an array-derived
/// entity.
pub struct DimElement {
    /// Number of array elements.
    pub dim: u32,
    /// Address stride between consecutive elements.
    pub dim_increment: u32,
    /// An optional list of index names.
    pub dim_index: Option<String>,
}

/// A single register.
pub struct RegisterInfo {
    /// The register's name.
    pub name: String,
    /// An optional description.
    pub description: Option<String>,
    /// Offset relative to the enclosing element.
    pub address_offset: u32,
    /// The register's own properties.
    pub properties: RegisterProperties,
    /// Side effect of writes, if specified.
    pub modified_write_values: Option<ModifiedWriteValues>,
}

/// A named group of registers.
pub struct ClusterInfo {
    /// The cluster's name.
    pub name: String,
    /// An optional description.
    pub description: Option<String>,
    /// Offset relative to the enclosing element.
    pub address_offset: u32,
}

/// A register or a cluster: both carry an address offset and a name, used
/// by the ordering policy and never for identity.
pub enum RegisterCluster {
    /// A single register.
    Register(RegisterInfo),
    /// A cluster of registers.
    Cluster(ClusterInfo),
}

/// The address offset an entry declares.
pub open spec fn rc_offset(rc: RegisterCluster) -> u32 {
    match rc {
        RegisterCluster::Register(r) => r.address_offset,
        RegisterCluster::Cluster(c) => c.address_offset,
    }
}

/// The name an entry declares.
pub open spec fn rc_name(rc: RegisterCluster) -> Seq<char> {
    match rc {
        RegisterCluster::Register(r) => r.name@,
        RegisterCluster::Cluster(c) => c.name@,
    }
}

impl RegisterCluster {
    /// The address offset this entry declares.
    pub fn address_offset(&self) -> (r: u32)
        ensures
            r == rc_offset(*self),
    {
        match self {
            RegisterCluster::Register(r) => r.address_offset,
            RegisterCluster::Cluster(c) => c.address_offset,
        }
    }

    /// The name this entry declares.
    pub fn name(&self) -> (r: &str)
        ensures
            r@ == rc_name(*self),
    {
        match self {
            RegisterCluster::Register(r) => r.name.as_str(),
            RegisterCluster::Cluster(c) => c.name.as_str(),
        }
    }
}

/// The description of one peripheral instance: name and base address are
/// required, every other field optional.
pub struct PeripheralInfo {
    /// The peripheral's name.
    pub name: String,
    /// An optional display name.
    pub display_name: Option<String>,
    /// An optional version string.
    pub version: Option<String>,
    /// An optional description.
    pub description: Option<String>,
    /// An optional reference to a peripheral overlapping this one.
    pub alternate_peripheral: Option<String>,
    /// An optional group name.
    pub group_name: Option<String>,
    /// An optional prefix for register names.
    pub prepend_to_name: Option<String>,
    /// An optional suffix for register names.
    pub append_to_name: Option<String>,
    /// An optional header struct name.
    pub header_struct_name: Option<String>,
    /// The peripheral's base address.
    pub base_address: u64,
    /// Register properties inherited by the peripheral's registers.
    pub default_register_properties: RegisterProperties,
    /// The peripheral's address blocks, if any.
    pub address_block: Option<Vec<AddressBlock>>,
    /// The peripheral's interrupts, in source order.
    pub interrupt: Vec<Interrupt>,
    /// The peripheral's registers and clusters, if any.
    pub registers: Option<Vec<RegisterCluster>>,
    /// An optional derivation reference.
    pub derived_from: Option<String>,
}

/// A peripheral: a single instance, or an array of identically shaped
/// instances described by an array descriptor.
pub enum Peripheral {
    /// One instance.
    Single(PeripheralInfo),
    /// An array of instances.
    Array(PeripheralInfo, DimElement),
}

} // verus!
