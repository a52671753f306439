//! Topology discovery and the labels that publish it. The topology of a node
//! feeds both the labeler and the preflight checks of the node's scope.

pub mod discover;
pub mod labels;
pub mod laws;
pub mod lldp;
pub mod rdma;

use crate::sensors::AcceleratorId;
use crate::sensors::IdModel;
use vstd::prelude::*;

verus! {

/// What a fabric is made of.
#[derive(Debug, Clone, Copy, PartialEq, Eq, Structural)]
pub enum FabricKind {
    /// AMD xGMI mesh.
    XGmi,
    /// Nvidia NVLink, which sysfs does not show.
    NVLink,
    /// PCIe: a card by itself.
    Pcie,
}

/// Accelerators that share a fabric.
#[derive(Debug)]
pub struct FabricDomain {
    /// Opaque and stable within a node: a hash of the sorted PCI addresses
    /// of the members.
    pub id: String,
    pub kind: FabricKind,
    pub member_accelerators: Vec<AcceleratorId>,
    pub aggregate_bandwidth_gbps: Option<u64>,
}

/// The model of a domain.
#[verifier::ext_equal]
pub struct DomainModel {
    pub id: Seq<char>,
    pub kind: FabricKind,
    pub members: Seq<IdModel>,
    pub aggregate_bandwidth_gbps: Option<u64>,
}

/// The models of identities.
pub open spec fn ids(v: Seq<AcceleratorId>) -> Seq<IdModel> {
    v.map_values(|id: AcceleratorId| id@)
}

impl View for FabricDomain {
    type V = DomainModel;

    open spec fn view(&self) -> DomainModel {
        DomainModel {
            id: self.id@,
            kind: self.kind,
            members: ids(self.member_accelerators@),
            aggregate_bandwidth_gbps: self.aggregate_bandwidth_gbps,
        }
    }
}

/// The models of domains.
pub open spec fn domains(v: Seq<FabricDomain>) -> Seq<DomainModel> {
    v.map_values(|d: FabricDomain| d@)
}

/// Where a node stands, and how its accelerators are wired.
#[derive(Debug)]
pub struct NodeTopology {
    pub region: Option<String>,
    pub zone: Option<String>,
    pub block: Option<String>,
    pub rack: Option<String>,
    pub fabric_domains: Vec<FabricDomain>,
    /// The switch ports that the node was seen to be wired to.
    pub lldp_neighbors: Vec<lldp::LldpNeighbor>,
}

} // verus!
