use aquamarine::deadline::Deadline;
use aquamarine::storage::Storage;
use aquamarine::token::get_particle_token;
use aquamarine::types::WorkType;
use aquamarine::vm_pool::{VmPool, VmSlot};

#[test]
fn storage_from_byte() {
    assert_eq!(Storage::from(0), Storage::SWARM);
    assert_eq!(Storage::from(1), Storage::IPFS);
    assert_eq!(Storage::from(7), Storage::UNKNOWN(7));
}

#[test]
fn storage_to_byte_round_trip() {
    for n in 0..=255u8 {
        assert_eq!(Storage::from(n).to_u8(), n);
    }
    assert_eq!(Storage::SWARM.to_u8(), 0);
    assert_eq!(Storage::IPFS.to_u8(), 1);
}

#[test]
fn work_types_differ() {
    assert_ne!(WorkType::CapacityCommitment, WorkType::Deal);
}

#[test]
fn deadline_is_timestamp_plus_ttl() {
    let d = Deadline::new(1000, 99);
    assert_eq!(d.deadline_ms, 1099);
    assert!(!d.is_expired(1098));
    assert!(d.is_expired(1099));
    assert!(d.is_expired(2000));
}

#[test]
fn deadline_saturates() {
    let d = Deadline::new(u64::MAX - 1, 5);
    assert_eq!(d.deadline_ms, u64::MAX);
    assert!(!d.is_expired(u64::MAX - 1));
}

#[test]
fn particle_token_is_base58_of_root_signature() {
    let sig = vec![0x04, 0x30, 0x5e, 0x2b, 0x24, 0x73, 0xf0, 0x58];
    assert_eq!(get_particle_token(&Some(sig)), Ok("he11owor1d".to_string()));
    assert_eq!(get_particle_token(&Some(vec![])), Ok(String::new()));
}

#[test]
fn particle_token_needs_root_signature() {
    assert_eq!(
        get_particle_token(&None),
        Err("Could not produce particle token by signing the particle signature".to_string())
    );
}

#[test]
fn vm_pool_lends_and_takes_back() {
    let mut pool = VmPool::new(2);
    assert_eq!(pool.capacity(), 2);
    assert_eq!(pool.free_vms(), 0);
    assert_eq!(pool.take_requests(), vec![0, 1]);
    assert!(pool.vm_created(0));
    assert!(pool.vm_created(1));
    assert!(!pool.vm_created(1));
    assert_eq!(pool.get_vm(), Some(0));
    assert_eq!(pool.get_vm(), Some(1));
    assert_eq!(pool.get_vm(), None);
    assert!(pool.put_vm(1));
    assert!(!pool.put_vm(1));
    assert_eq!(pool.free_vms(), 1);
    assert!(pool.recreate_avm(0));
    assert_eq!(pool.take_requests(), vec![0]);
    assert!(!pool.put_vm(5));
}

#[test]
fn vm_pool_slots_partition_capacity() {
    let mut pool = VmPool::new(3);
    pool.take_requests();
    assert!(pool.vm_created(0));
    assert!(pool.vm_created(1));
    assert_eq!(pool.get_vm(), Some(0));
    let slots: Vec<VmSlot> = (0..pool.capacity()).map(|i| pool.slot(i).unwrap()).collect();
    let free = slots.iter().filter(|s| **s == VmSlot::Free).count();
    let in_use = slots.iter().filter(|s| **s == VmSlot::InUse).count();
    let creating = slots.iter().filter(|s| **s == VmSlot::Creating).count();
    assert_eq!((free, in_use, creating), (1, 1, 1));
    assert_eq!(free + in_use + creating, 3);
    assert_eq!(pool.slot(3), None);
}
