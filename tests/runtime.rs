use wrpc_dynamic::completion::{ChannelState, Completion, Subchannels};
use wrpc_dynamic::counter::{counter_new, get_count, increment_by};
use wrpc_dynamic::polyfill::{is_statically_bound, polyfill_selection};
use wrpc_dynamic::resource::{borrow, RegistryIssuer, ResourceError};

#[test]
fn two_streams_complete_in_either_order() {
    for (first, second) in [(0usize, 1usize), (1, 0)] {
        let mut chans = Subchannels::new(2);
        assert_eq!(chans.status(), Completion::Pending);
        chans.finish(first);
        assert_eq!(chans.state(first), ChannelState::Done);
        assert_eq!(chans.status(), Completion::Pending);
        chans.finish(second);
        assert_eq!(chans.status(), Completion::Complete);
    }
}

#[test]
fn failure_and_cancellation() {
    let mut chans = Subchannels::new(3);
    chans.finish(0);
    chans.fail(1);
    assert_eq!(chans.status(), Completion::Failed);
    let mut chans = Subchannels::new(2);
    chans.finish(0);
    chans.cancel();
    assert_eq!(chans.state(0), ChannelState::Done);
    assert_eq!(chans.state(1), ChannelState::Failed);
    assert_eq!(chans.status(), Completion::Failed);
    assert_eq!(Subchannels::new(0).status(), Completion::Complete);
}

#[test]
fn released_handle_is_not_found() {
    let mut issuer = RegistryIssuer::new();
    let mut reg = issuer.issue().unwrap();
    let own = reg.allocate(41);
    let b1 = borrow(&own);
    let b2 = borrow(&own);
    assert_eq!(reg.get(b1.handle), Ok(41));
    assert_eq!(reg.get(b2.handle), Ok(41));
    let handle = own.handle;
    assert_eq!(reg.release(own), Ok(41));
    assert_eq!(reg.get(handle), Err(ResourceError::NotFound));
    assert_eq!(reg.get(b1.handle), Err(ResourceError::NotFound));
    let again = reg.allocate(1);
    assert_ne!(again.handle, handle);
    assert_eq!(reg.issued_count(), 2);
}

#[test]
fn counter_scenario() {
    let mut issuer = RegistryIssuer::new();
    let mut reg = issuer.issue().unwrap();
    let counter = counter_new(&mut reg, 5);
    let this = borrow(&counter);
    assert_eq!(increment_by(&mut reg, &this, 3), Ok(()));
    assert_eq!(get_count(&reg, &this), Ok(8));

    let mut other = issuer.issue().unwrap();
    let unrelated = counter_new(&mut other, 100);
    assert_eq!(get_count(&other, &borrow(&unrelated)), Ok(100));
    assert_eq!(get_count(&other, &this), Err(ResourceError::NotFound));
    assert_eq!(increment_by(&mut other, &this, 1), Err(ResourceError::NotFound));
}

#[test]
fn counter_wraps_around() {
    let mut reg = RegistryIssuer::new().issue().unwrap();
    let counter = counter_new(&mut reg, u32::MAX);
    let this = borrow(&counter);
    assert_eq!(increment_by(&mut reg, &this, 2), Ok(()));
    assert_eq!(get_count(&reg, &this), Ok(1));
}

#[test]
fn polyfill_skips_static_interfaces() {
    let imports = vec![
        "wasi:io/streams@0.2.0".to_string(),
        "wrpc-examples:hello/handler".to_string(),
    ];
    assert_eq!(polyfill_selection(&imports), vec![false, true]);
    assert!(is_statically_bound("wasi:keyvalue/store@0.2.0-draft"));
    assert!(!is_statically_bound("wasi:io/streams@0.2.1"));
    assert!(!is_statically_bound(""));
}

#[test]
fn handle_of_first_slot_is_foreign_to_another_registry() {
    // Both registries hand out their first slot; their handles still differ,
    // and neither resolves in the other.
    let mut issuer = RegistryIssuer::new();
    let mut a = issuer.issue().unwrap();
    let mut b = issuer.issue().unwrap();
    let ca = counter_new(&mut a, 5);
    let cb = counter_new(&mut b, 7);
    assert_ne!(ca.handle, cb.handle);
    assert_eq!(get_count(&a, &borrow(&ca)), Ok(5));
    assert_eq!(get_count(&b, &borrow(&cb)), Ok(7));
    assert_eq!(get_count(&a, &borrow(&cb)), Err(ResourceError::NotFound));
    assert_eq!(get_count(&b, &borrow(&ca)), Err(ResourceError::NotFound));
    assert_eq!(increment_by(&mut a, &borrow(&cb), 1), Err(ResourceError::NotFound));
    assert_eq!(get_count(&b, &borrow(&cb)), Ok(7));
    assert_eq!(get_count(&a, &borrow(&ca)), Ok(5));
}

#[test]
fn registries_of_one_issuer_are_distinct() {
    let mut issuer = RegistryIssuer::new();
    let mut regs: Vec<_> = (0..4).map(|_| issuer.issue().unwrap()).collect();
    let handles: Vec<u64> = regs.iter_mut().map(|r| r.allocate(1).handle).collect();
    for (i, r) in regs.iter().enumerate() {
        for (j, h) in handles.iter().enumerate() {
            assert_eq!(r.get(*h).is_ok(), i == j);
        }
    }
}

#[test]
fn unrelated_issuers() {
    let mut a = RegistryIssuer::new().issue().unwrap();
    let mut b = RegistryIssuer::new().issue().unwrap();
    let ca = counter_new(&mut a, 5);
    let cb = counter_new(&mut b, 7);
    assert_eq!(get_count(&a, &borrow(&ca)), Ok(5));
    assert_eq!(get_count(&b, &borrow(&cb)), Ok(7));
    if ca.handle != cb.handle {
        assert_eq!(get_count(&a, &borrow(&cb)), Err(ResourceError::NotFound));
    }
}
