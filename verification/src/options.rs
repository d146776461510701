//! Configuration of the cache and of a single instantiation.

use vstd::prelude::*;

verus! {

/// A number of bytes.
#[derive(Clone, Copy, Debug, PartialEq, Eq, Structural)]
pub struct Size(pub usize);

impl Size {
    /// `n` bytes.
    pub fn new(n: usize) -> (s: Size)
        ensures
            s.0 == n,
    {
        Size(n)
    }

    /// `n` times 1024 bytes.
    pub fn kibi(n: usize) -> (s: Size)
        requires
            n * 1024 <= usize::MAX,
        ensures
            s.0 == n * 1024,
    {
        Size(n * 1024)
    }

    /// `n` times 1024 * 1024 bytes.
    pub fn mebi(n: usize) -> (s: Size)
        requires
            n * 1024 * 1024 <= usize::MAX,
        ensures
            s.0 == n * 1024 * 1024,
    {
        Size(n * 1024 * 1024)
    }

    /// `n` times 1024 * 1024 * 1024 bytes.
    pub fn gibi(n: usize) -> (s: Size)
        requires
            n * 1024 * 1024 * 1024 <= usize::MAX,
        ensures
            s.0 == n * 1024 * 1024 * 1024,
    {
        Size(n * 1024 * 1024 * 1024)
    }

    /// `n` times `unit` bytes, where that fits in the machine's word.
    pub fn checked(n: usize, unit: usize) -> (r: Option<Size>)
        ensures
            match r {
                Some(s) => s.0 == n * unit,
                None => n * unit > usize::MAX,
            },
    {
        match n.checked_mul(unit) {
            Some(bytes) => Some(Size(bytes)),
            None => None,
        }
    }

    /// The number of bytes.
    pub fn bytes(&self) -> (n: usize)
        ensures
            n == self.0,
    {
        self.0
    }
}

/// What a cache is made with. It stays as it is for the life of the cache.
#[derive(Clone, Debug, PartialEq, Eq)]
pub struct CacheOptions {
    /// Where the durable store keeps the modules.
    pub base_storage_location: String,
    /// The capabilities that the host offers to modules.
    pub available_capabilities: Vec<String>,
    /// The budget of the memory tier.
    pub memory_tier_byte_budget: Size,
    /// The memory that one instance may use.
    pub instance_memory_limit: Size,
}

/// The limits of one instantiation.
#[derive(Clone, Copy, Debug, PartialEq, Eq, Structural)]
pub struct InstanceOptions {
    /// The budget of metering units that the instance may spend.
    pub cpu_metering_budget: u64,
    /// Whether the instance may print debug output.
    pub debug_output_enabled: bool,
}

} // verus!
