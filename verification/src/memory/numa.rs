//! NUMA node selection for allocation.

use crate::error::Error;
use crate::text::{decimal, u64_to_decimal};
use vstd::prelude::*;

verus! {

/// NUMA node identifier
pub type NumaNode = u32;

/// NUMA-aware allocator configuration
#[derive(Debug, Clone)]
pub struct NumaConfig {
    /// Enable NUMA-aware allocation
    pub enabled: bool,
    /// Preferred NUMA node for allocation
    pub preferred_node: Option<NumaNode>,
    /// Number of NUMA nodes detected
    pub num_nodes: u32,
}

/// NUMA-aware allocator
pub struct NumaAllocator {
    config: NumaConfig,
    current_node: u32,
}

/// NUMA statistics
#[derive(Debug, Clone)]
pub struct NumaStats {
    /// Number of NUMA nodes
    pub num_nodes: u32,
    /// Whether NUMA-aware allocation is enabled
    pub enabled: bool,
    /// Current preferred NUMA node
    pub current_node: NumaNode,
}

impl NumaAllocator {
    /// The configuration the allocator was made with.
    pub closed spec fn config_view(&self) -> NumaConfig {
        self.config
    }

    /// The node most recently selected with `set_preferred_node` (0 initially).
    pub closed spec fn current(&self) -> u32 {
        self.current_node
    }

    /// Create a new NUMA-aware allocator
    pub fn new(config: NumaConfig) -> (a: Self)
        ensures
            a.config_view() == config,
            a.current() == 0,
    {
        NumaAllocator { config, current_node: 0 }
    }

    /// Get the preferred NUMA node: the configured one, else the current one
    /// taken modulo the number of nodes.
    pub fn get_preferred_node(&self) -> (n: NumaNode)
        requires
            self.config_view().preferred_node is None ==> self.config_view().num_nodes > 0,
        ensures
            n == match self.config_view().preferred_node {
                Some(p) => p,
                None => (self.current() % self.config_view().num_nodes) as u32,
            },
    {
        match self.config.preferred_node {
            Some(node) => node,
            None => self.current_node % self.config.num_nodes,
        }
    }

    /// Set the current NUMA node; nodes out of range are ignored.
    pub fn set_preferred_node(&mut self, node: NumaNode)
        ensures
            final(self).config_view() == old(self).config_view(),
            final(self).current() == if node < old(self).config_view().num_nodes { node } else { old(self).current() },
    {
        if node < self.config.num_nodes {
            self.current_node = node;
        }
    }

    /// Get NUMA node statistics
    pub fn get_stats(&self) -> (s: NumaStats)
        ensures
            s.num_nodes == self.config_view().num_nodes,
            s.enabled == self.config_view().enabled,
            s.current_node == self.current(),
    {
        NumaStats {
            num_nodes: self.config.num_nodes,
            enabled: self.config.enabled,
            current_node: self.current_node,
        }
    }
}

} // verus!

verus! {

/// The message refusing a node outside the configured ones.
pub open spec fn invalid_node_message(node: NumaNode, num_nodes: u32) -> Seq<char> {
    "Invalid NUMA node: "@ + decimal(node as nat) + " (max: "@ + decimal((num_nodes - 1) as nat) + ")"@
}

impl NumaConfig {
    /// Whether binding a thread to `node` is recorded: not when NUMA-aware
    /// placement is off (`Ok(false)`); refused for a node at or past the
    /// number of nodes; recorded otherwise (`Ok(true)`).
    pub fn check_binding(&self, node: NumaNode) -> (r: Result<bool, Error>)
        requires
            self.enabled && node >= self.num_nodes ==> self.num_nodes > 0,
        ensures
            !self.enabled ==> r == Ok::<bool, Error>(false),
            self.enabled && node < self.num_nodes ==> r == Ok::<bool, Error>(true),
            self.enabled && node >= self.num_nodes ==> (r matches Err(Error::InvalidInput(m)) && m@ == invalid_node_message(
                node,
                self.num_nodes,
            )),
    {
        if !self.enabled {
            return Ok(false);
        }
        if node >= self.num_nodes {
            let msg = String::from_str("Invalid NUMA node: ").concat(u64_to_decimal(node as u64).as_str()).concat(
                " (max: ",
            ).concat(u64_to_decimal((self.num_nodes - 1) as u64).as_str()).concat(")");
            return Err(Error::InvalidInput(msg));
        }
        Ok(true)
    }
}

} // verus!
