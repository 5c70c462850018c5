//! Read-only mirror types for the presentation layer.
use vstd::prelude::*;
use crate::hulls::{Role, role_rank};

verus! {

/// Which civilian role a ship is fulfilling — a read-only mirror of the
/// engine's role enum, so presentation never depends on the simulation.
#[derive(Clone, Copy, Debug, PartialEq, Eq, Structural)]
pub enum VehicleKind {
    Scout,
    Colonizer,
    Miner,
    Freighter,
    Reserve,
    Scrapped,
}

impl VehicleKind {
    /// Every kind, in declaration order.
    pub const ALL: [VehicleKind; 6] = [
        VehicleKind::Scout,
        VehicleKind::Colonizer,
        VehicleKind::Miner,
        VehicleKind::Freighter,
        VehicleKind::Reserve,
        VehicleKind::Scrapped,
    ];
}

/// The kind a role is shown as: each role by its own name.
pub open spec fn spec_kind(role: Role) -> VehicleKind {
    match role {
        Role::Scout => VehicleKind::Scout,
        Role::Colonizer => VehicleKind::Colonizer,
        Role::Miner => VehicleKind::Miner,
        Role::Freighter => VehicleKind::Freighter,
        Role::Reserve => VehicleKind::Reserve,
        Role::Scrapped => VehicleKind::Scrapped,
    }
}

impl Role {
    /// The vehicle kind this role is shown as.
    pub fn kind(self) -> (k: VehicleKind)
        ensures
            k == spec_kind(self),
    {
        match self {
            Role::Scout => VehicleKind::Scout,
            Role::Colonizer => VehicleKind::Colonizer,
            Role::Miner => VehicleKind::Miner,
            Role::Freighter => VehicleKind::Freighter,
            Role::Reserve => VehicleKind::Reserve,
            Role::Scrapped => VehicleKind::Scrapped,
        }
    }
}

/// The presentation mirror loses nothing: distinct roles are shown as
/// distinct kinds, and every kind is shown for some role.
pub proof fn law_kind_mirrors_role(a: Role, b: Role, k: VehicleKind)
    ensures
        spec_kind(a) == spec_kind(b) ==> a == b,
        exists|r: Role| spec_kind(r) == k,
{
    match k {
        VehicleKind::Scout => assert(spec_kind(Role::Scout) == k),
        VehicleKind::Colonizer => assert(spec_kind(Role::Colonizer) == k),
        VehicleKind::Miner => assert(spec_kind(Role::Miner) == k),
        VehicleKind::Freighter => assert(spec_kind(Role::Freighter) == k),
        VehicleKind::Reserve => assert(spec_kind(Role::Reserve) == k),
        VehicleKind::Scrapped => assert(spec_kind(Role::Scrapped) == k),
    }
}

/// The mirror keeps declaration order: the role at each position of
/// `Role::ALL` is shown as the kind at the same position of
/// `VehicleKind::ALL`, so each role is shown under its own name.
pub proof fn law_kind_keeps_declaration_order(r: Role)
    ensures
        spec_kind(r) == VehicleKind::ALL@[role_rank(r)],
        forall|i: int| 0 <= i < 6 ==> spec_kind(#[trigger] Role::ALL@[i]) == VehicleKind::ALL@[i],
{
}

} // verus!
