use cosmwasm_core::cache::{Cache, CacheError, Lookup};
use cosmwasm_core::checksum::Checksum;
use cosmwasm_core::memory_tier::MemoryTier;
use cosmwasm_core::options::{CacheOptions, InstanceOptions, Size};
use cosmwasm_core::pinned_tier::PinnedTier;
use cosmwasm_core::stats::Stats;
use cosmwasm_core::validation::{validate, ModuleReport, ValidationError};

const MIB: usize = 1024 * 1024;

fn options(budget: usize) -> CacheOptions {
    CacheOptions {
        base_storage_location: "/var/lib/modules".to_string(),
        available_capabilities: vec!["iterator".to_string(), "staking".to_string()],
        memory_tier_byte_budget: Size::new(budget),
        instance_memory_limit: Size::mebi(16),
    }
}

fn report(required: &[&str]) -> ModuleReport {
    ModuleReport {
        well_formed: true,
        uses_disallowed_constructs: false,
        required_capabilities: required.iter().map(|s| s.to_string()).collect(),
    }
}

/// What the owner of a cache does to save a module: check it, write it where it is new, take note.
fn save_wasm(cache: &mut Cache<String>, wasm: &[u8]) -> Result<(Checksum, bool), CacheError> {
    let checksum = cache.check_wasm(wasm, &report(&["iterator"]))?;
    let created = cache.record_saved(checksum);
    Ok((checksum, created))
}

/// What the owner does to get a module: look it up and, where told to, compile and hand in.
fn get_module(cache: &mut Cache<String>, checksum: &Checksum, size: usize) -> Option<String> {
    match cache.get_module(checksum) {
        Lookup::Pinned(m) | Lookup::Memory(m) => return Some(m.clone()),
        Lookup::NotFound => return None,
        Lookup::Load => {}
    }
    let module = format!("compiled {}", checksum.to_hex());
    assert!(cache.store_module(*checksum, module.clone(), size));
    Some(module)
}

fn pin(cache: &mut Cache<String>, checksum: &Checksum, size: usize) -> Result<(), CacheError> {
    cache.pin(checksum)?;
    let module = format!("compiled {}", checksum.to_hex());
    assert!(cache.pin_module(*checksum, module, size));
    Ok(())
}

fn stats(pinned_hits: u64, memory_hits: u64, durable_hits: u64, misses: u64) -> Stats {
    Stats { pinned_hits, memory_hits, durable_hits, misses }
}

#[test]
fn checksum_is_sha256_of_the_bytes() {
    assert_eq!(
        Checksum::generate(b"hello world").to_hex(),
        "b94d27b9934d3e08a52e52d7da7dabfac484efe37a5380ee9088f7ace2efcde9"
    );
    assert_eq!(
        Checksum::generate(b"").to_hex(),
        "e3b0c44298fc1c149afbf4c8996fb92427ae41e4649b934ca495991b7852b855"
    );
    assert_eq!(Checksum::generate(b"abc"), Checksum::generate(b"abc"));
    assert_ne!(Checksum::generate(b"abc"), Checksum::generate(b"abd"));
}

#[test]
fn checksum_from_slice_wants_32_bytes() {
    let c = Checksum::generate(b"abc");
    assert_eq!(Checksum::from_slice(&c.to_vec()), Some(c));
    assert_eq!(c.to_vec().len(), 32);
    assert_eq!(Checksum::from_slice(&[0u8; 31]), None);
    assert_eq!(Checksum::from_slice(&[0u8; 33]), None);
    assert_eq!(Checksum::from_slice(&[]), None);
    assert_eq!(Checksum([0xab; 32]).to_hex(), "ab".repeat(32));
    assert_eq!(Checksum([0x0f; 32]).to_hex(), "0f".repeat(32));
}

#[test]
fn validation_rejects_in_order() {
    let available = vec!["iterator".to_string(), "staking".to_string()];
    assert_eq!(validate(&report(&[]), &available), Ok(()));
    assert_eq!(validate(&report(&["staking", "iterator", "staking"]), &available), Ok(()));

    let mut malformed = report(&["stargate"]);
    malformed.well_formed = false;
    malformed.uses_disallowed_constructs = true;
    assert_eq!(validate(&malformed, &available), Err(ValidationError::Malformed));

    let mut disallowed = report(&["stargate"]);
    disallowed.uses_disallowed_constructs = true;
    assert_eq!(validate(&disallowed, &available), Err(ValidationError::DisallowedConstruct));

    assert_eq!(
        validate(&report(&["stargate", "iterator", "nope", "stargate"]), &available),
        Err(ValidationError::MissingCapabilities {
            missing: vec!["stargate".to_string(), "nope".to_string(), "stargate".to_string()]
        })
    );
    assert_eq!(
        validate(&report(&["iterator"]), &vec![]),
        Err(ValidationError::MissingCapabilities { missing: vec!["iterator".to_string()] })
    );
}

#[test]
fn check_wasm_rejects_before_anything_is_stored() {
    let mut cache: Cache<String> = Cache::new(options(200 * MIB));
    let err = cache.check_wasm(b"module", &report(&["stargate"])).unwrap_err();
    assert_eq!(
        err,
        CacheError::Validation {
            source: ValidationError::MissingCapabilities { missing: vec!["stargate".to_string()] }
        }
    );
    assert!(!cache.is_stored(&Checksum::generate(b"module")));
    assert_eq!(cache.stats(), stats(0, 0, 0, 0));
    assert_eq!(get_module(&mut cache, &Checksum::generate(b"module"), 1), None);
    assert_eq!(cache.options(), &options(200 * MIB));
}

#[test]
fn unknown_checksum_is_a_miss() {
    let mut cache: Cache<String> = Cache::new(options(200 * MIB));
    save_wasm(&mut cache, b"module a").unwrap();
    let unknown = Checksum::generate(b"never saved");

    assert!(matches!(cache.get_module(&unknown), Lookup::NotFound));
    assert_eq!(cache.stats(), stats(0, 0, 0, 1));
    assert!(matches!(cache.get_module(&unknown), Lookup::NotFound));
    assert_eq!(cache.stats(), stats(0, 0, 0, 2));
    // nothing is taken for a checksum that the store does not hold
    assert!(!cache.store_module(unknown, "x".to_string(), 1));
    assert!(!cache.pin_module(unknown, "x".to_string(), 1));
    assert!(!cache.is_in_memory(&unknown));
    assert!(!cache.is_pinned(&unknown));
}

#[test]
fn saving_twice_gives_the_same_checksum_and_one_artifact() {
    let mut cache: Cache<String> = Cache::new(options(200 * MIB));
    let (first, created_first) = save_wasm(&mut cache, b"module a").unwrap();
    let (second, created_second) = save_wasm(&mut cache, b"module a").unwrap();
    assert_eq!(first, second);
    assert!(created_first);
    assert!(!created_second);
    assert!(cache.is_stored(&first));
    assert_eq!(cache.stats(), stats(0, 0, 0, 0));
}

#[test]
fn lookups_go_from_store_to_memory_to_pinned() {
    let mut cache: Cache<String> = Cache::new(options(200 * MIB));
    let (a, _) = save_wasm(&mut cache, b"module a").unwrap();
    assert!(!cache.is_in_memory(&a));

    // from the durable store
    let module = get_module(&mut cache, &a, 10 * MIB).unwrap();
    assert_eq!(cache.stats(), stats(0, 0, 1, 0));

    // from memory
    assert_eq!(get_module(&mut cache, &a, 10 * MIB).unwrap(), module);
    assert_eq!(cache.stats(), stats(0, 1, 1, 0));

    // pinning counts a hit of the durable store although memory holds a copy
    pin(&mut cache, &a, 10 * MIB).unwrap();
    assert_eq!(cache.stats(), stats(0, 1, 2, 0));

    // from the pinned tier
    assert_eq!(get_module(&mut cache, &a, 10 * MIB).unwrap(), module);
    assert_eq!(cache.stats(), stats(1, 1, 2, 0));
    assert!(cache.is_pinned(&a));
    assert!(cache.is_in_memory(&a));
}

#[test]
fn unpin_falls_back_to_memory() {
    let mut cache: Cache<String> = Cache::new(options(200 * MIB));
    let (a, _) = save_wasm(&mut cache, b"module a").unwrap();
    get_module(&mut cache, &a, 10 * MIB).unwrap();
    pin(&mut cache, &a, 10 * MIB).unwrap();
    assert_eq!(cache.stats(), stats(0, 0, 2, 0));

    assert!(cache.unpin(&a));
    assert!(!cache.unpin(&a));
    assert!(matches!(cache.get_module(&a), Lookup::Memory(_)));
    assert_eq!(cache.stats(), stats(0, 1, 2, 0));
    assert!(cache.is_stored(&a));
}

#[test]
fn pin_of_unknown_checksum_is_not_found() {
    let mut cache: Cache<String> = Cache::new(options(200 * MIB));
    let unknown = Checksum::generate(b"never saved");
    assert_eq!(cache.pin(&unknown), Err(CacheError::NotFound { checksum: unknown }));
    assert_eq!(cache.stats(), stats(0, 0, 0, 0));
}

#[test]
fn memory_pressure_evicts_least_recently_used() {
    let mut cache: Cache<String> = Cache::new(options(200 * MIB));
    let (a, _) = save_wasm(&mut cache, b"module a").unwrap();
    let (b, _) = save_wasm(&mut cache, b"module b").unwrap();

    get_module(&mut cache, &a, 150 * MIB).unwrap();
    get_module(&mut cache, &b, 100 * MIB).unwrap();
    assert_eq!(cache.stats(), stats(0, 0, 2, 0));
    // b pushed a out
    assert!(!cache.is_in_memory(&a));
    assert!(cache.is_in_memory(&b));

    // a comes back from the store and pushes b out
    get_module(&mut cache, &a, 150 * MIB).unwrap();
    assert_eq!(cache.stats(), stats(0, 0, 3, 0));
    assert!(cache.is_in_memory(&a));
    assert!(!cache.is_in_memory(&b));

    // the next access to b is a hit of the store, no memory hit
    get_module(&mut cache, &b, 100 * MIB).unwrap();
    assert_eq!(cache.stats(), stats(0, 0, 4, 0));
}

#[test]
fn pinned_module_survives_memory_pressure() {
    let mut cache: Cache<String> = Cache::new(options(200 * MIB));
    let (a, _) = save_wasm(&mut cache, b"module a").unwrap();
    let (b, _) = save_wasm(&mut cache, b"module b").unwrap();
    let (c, _) = save_wasm(&mut cache, b"module c").unwrap();
    pin(&mut cache, &a, 150 * MIB).unwrap();

    get_module(&mut cache, &b, 150 * MIB).unwrap();
    get_module(&mut cache, &c, 150 * MIB).unwrap();
    get_module(&mut cache, &b, 150 * MIB).unwrap();
    assert!(cache.is_pinned(&a));
    assert!(matches!(cache.get_module(&a), Lookup::Pinned(_)));
    assert_eq!(cache.stats(), stats(1, 0, 4, 0));
}

#[test]
fn counters_add_up_over_interleaved_callers() {
    // eight callers, served one step at a time in turn; a lookup that ends in
    // the store is followed by the hand-in only at the caller's next step, so
    // that other callers look the same module up in between
    let mut cache: Cache<String> = Cache::new(options(3 * MIB));
    let mut pending: Vec<Option<Checksum>> = vec![None; 8];
    let mut lookups = 0u64;
    let mut pins = 0u64;
    for round in 0..50u8 {
        for worker in 0..8u8 {
            if let Some(target) = pending[worker as usize].take() {
                cache.store_module(target, target.to_hex(), MIB);
            }
            let wasm = [b'm', (worker + round) % 5];
            let checksum = save_wasm(&mut cache, &wasm).unwrap().0;
            let unknown = Checksum::generate(&[b'u', round % 3]);
            for target in [checksum, unknown] {
                if matches!(cache.get_module(&target), Lookup::Load) {
                    pending[worker as usize] = Some(target);
                }
                lookups += 1;
            }
            if round % 7 == 0 && cache.pin(&checksum).is_ok() {
                pins += 1;
                cache.pin_module(checksum, checksum.to_hex(), MIB);
            }
            if round % 11 == 0 {
                cache.unpin(&checksum);
            }
        }
    }
    let s = cache.stats();
    assert_eq!(lookups, 8 * 50 * 2);
    assert_eq!(s.pinned_hits + s.memory_hits + s.durable_hits + s.misses, lookups + pins);
    assert_eq!(s.misses, 8 * 50);
    assert!(s.pinned_hits > 0 && s.memory_hits > 0 && s.durable_hits > pins);
}

#[test]
fn counters_saturate() {
    let mut s = Stats { pinned_hits: u64::MAX, memory_hits: u64::MAX - 1, durable_hits: 0, misses: 7 };
    s.count_pinned_hit();
    s.count_memory_hit();
    s.count_memory_hit();
    s.count_durable_hit();
    s.count_miss();
    assert_eq!(s, stats(u64::MAX, u64::MAX, 1, 8));
    assert_eq!(Stats::new(), stats(0, 0, 0, 0));
}

#[test]
fn memory_tier_orders_by_last_use() {
    let mut tier: MemoryTier<&str> = MemoryTier::new(30);
    let (a, b, c, d) = (Checksum([1; 32]), Checksum([2; 32]), Checksum([3; 32]), Checksum([4; 32]));
    tier.insert(a, "a", 10);
    tier.insert(b, "b", 10);
    tier.insert(c, "c", 10);
    assert_eq!((tier.len(), tier.size()), (3, 30));

    // a is used, so b is now the least recently used and goes first
    assert_eq!(tier.get(&a), Some(&"a"));
    tier.insert(d, "d", 10);
    assert!(tier.contains(&a) && !tier.contains(&b) && tier.contains(&c) && tier.contains(&d));

    // peek is no use: c stays the least recently used
    assert_eq!(tier.peek(&c), Some(&"c"));
    tier.insert(b, "b", 10);
    assert!(!tier.contains(&c));

    // a larger module evicts as many as it takes
    tier.insert(c, "c", 25);
    assert_eq!((tier.len(), tier.size()), (1, 25));
    assert!(tier.contains(&c));
    assert_eq!(tier.get(&a), None);
}

#[test]
fn memory_tier_refreshes_and_rejects_oversize() {
    let mut tier: MemoryTier<&str> = MemoryTier::new(30);
    let (a, b) = (Checksum([1; 32]), Checksum([2; 32]));
    tier.insert(a, "a", 10);
    tier.insert(b, "b", 10);

    // a refresh replaces the module and its size, and counts as a use
    tier.insert(a, "a2", 20);
    assert_eq!((tier.len(), tier.size()), (2, 30));
    assert_eq!(tier.peek(&a), Some(&"a2"));
    tier.insert(a, "a3", 25);
    assert_eq!((tier.len(), tier.size()), (1, 25));
    assert!(!tier.contains(&b));

    // a module of exactly the budget fits alone
    tier.insert(b, "b", 30);
    assert_eq!((tier.len(), tier.size()), (1, 30));
    assert!(tier.contains(&b));

    // a module larger than the budget does not stay, and nothing else does
    tier.insert(a, "a", 31);
    assert_eq!((tier.len(), tier.size()), (0, 0));

    assert!(!tier.touch(&a));
    tier.insert(a, "a", 0);
    assert!(tier.touch(&a));
    assert!(tier.remove(&a));
    assert!(!tier.remove(&a));

    let mut none: MemoryTier<&str> = MemoryTier::new(0);
    none.insert(a, "a", 1);
    assert_eq!(none.len(), 0);
    none.insert(a, "a", 0);
    assert_eq!(none.len(), 1);
}

#[test]
fn pinned_tier_keeps_until_removed() {
    let mut tier: PinnedTier<&str> = PinnedTier::new();
    let (a, b) = (Checksum([1; 32]), Checksum([2; 32]));
    assert!(!tier.contains(&a));
    assert_eq!(tier.get(&a), None);
    tier.insert(a, "a", usize::MAX);
    tier.insert(b, "b", usize::MAX);
    tier.insert(a, "a2", 1);
    assert_eq!(tier.len(), 2);
    assert_eq!(tier.get(&a), Some(&"a2"));
    assert_eq!(tier.get(&b), Some(&"b"));
    assert!(tier.remove(&a));
    assert!(!tier.remove(&a));
    assert!(!tier.contains(&a));
    assert!(tier.contains(&b));
}

#[test]
fn sizes_and_instance_options() {
    assert_eq!(Size::kibi(3).bytes(), 3 * 1024);
    assert_eq!(Size::mebi(200).bytes(), 200 * MIB);
    assert_eq!(Size::gibi(1).bytes(), 1024 * MIB);
    assert_eq!(Size::checked(2, 1024), Some(Size::new(2048)));
    assert_eq!(Size::checked(usize::MAX, 2), None);
    let o = InstanceOptions { cpu_metering_budget: 500_000_000_000, debug_output_enabled: false };
    assert_eq!(o, o.clone());
}
