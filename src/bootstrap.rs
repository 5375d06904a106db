//! The services the host spawns at start-up, in the order that fixes their
//! well-known addresses.
use vstd::prelude::*;
use crate::runtime::Address;

verus! {

/// A service spawned by the host at start-up.
#[derive(Clone, Copy, Debug, PartialEq, Eq, Structural)]
pub enum Service {
    Permissions,
    AllocatorManager,
    LoggerManager,
    Logger,
    Allocator,
    Dom,
    DisplayManager,
    MockAllocator,
    Fetch,
    Web3,
    Ipfs,
    PermissionsConsent,
}

pub const PERM_ADDR: Address = 1;
pub const ALLOCATOR_MANAGER_ADDR: Address = 2;
pub const LOGGER_MANAGER_ADDR: Address = 3;
pub const LOGGER_ADDR: Address = 4;
pub const ALLOCATOR_ADDR: Address = 5;
pub const DOM_ADDR: Address = 6;
pub const DISPLAY_MANAGER_ADDR: Address = 7;
pub const MOCK_ALLOCATOR_ADDR: Address = 8;
pub const FETCH_ADDR: Address = 9;
pub const WEB3_ADDR: Address = 10;
pub const IPFS_ADDR: Address = 11;
pub const PERM_AGENT_ADDR: Address = 12;

/// The start-up sequence: each service, and whether it is privileged.
pub open spec fn bootstrap_spec() -> Seq<(Service, bool)> {
    seq![
        (Service::Permissions, true),
        (Service::AllocatorManager, false),
        (Service::LoggerManager, false),
        (Service::Logger, true),
        (Service::Allocator, false),
        (Service::Dom, true),
        (Service::DisplayManager, true),
        (Service::MockAllocator, true),
        (Service::Fetch, true),
        (Service::Web3, true),
        (Service::Ipfs, true),
        (Service::PermissionsConsent, true),
    ]
}

/// The start-up sequence, in spawn order.
pub fn bootstrap_order() -> (r: Vec<(Service, bool)>)
    ensures
        r@ == bootstrap_spec(),
{
    let r = vec![
        (Service::Permissions, true),
        (Service::AllocatorManager, false),
        (Service::LoggerManager, false),
        (Service::Logger, true),
        (Service::Allocator, false),
        (Service::Dom, true),
        (Service::DisplayManager, true),
        (Service::MockAllocator, true),
        (Service::Fetch, true),
        (Service::Web3, true),
        (Service::Ipfs, true),
        (Service::PermissionsConsent, true),
    ];
    proof {
        assert(r@ =~= bootstrap_spec());
    }
    r
}

impl Service {
    /// The well-known address of the service: one more than its position in
    /// the start-up sequence, since a fresh runtime hands out addresses from
    /// 1 up.
    pub fn address(&self) -> (r: Address)
        ensures
            0 < r <= bootstrap_spec().len(),
            bootstrap_spec()[r - 1].0 == *self,
    {
        match self {
            Service::Permissions => PERM_ADDR,
            Service::AllocatorManager => ALLOCATOR_MANAGER_ADDR,
            Service::LoggerManager => LOGGER_MANAGER_ADDR,
            Service::Logger => LOGGER_ADDR,
            Service::Allocator => ALLOCATOR_ADDR,
            Service::Dom => DOM_ADDR,
            Service::DisplayManager => DISPLAY_MANAGER_ADDR,
            Service::MockAllocator => MOCK_ALLOCATOR_ADDR,
            Service::Fetch => FETCH_ADDR,
            Service::Web3 => WEB3_ADDR,
            Service::Ipfs => IPFS_ADDR,
            Service::PermissionsConsent => PERM_AGENT_ADDR,
        }
    }
}

} // verus!
