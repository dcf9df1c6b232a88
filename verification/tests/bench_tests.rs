use sandbox::bench::{BenchRegisterResult, BenchRegistry, PermissionsPledge, RestoreError, Unstable};

#[test]
fn pledge_then_restore_gives_back_parent_permissions() {
    let mut p: PermissionsPledge<String> = PermissionsPledge::new();
    assert!(!p.is_pledged());
    p.pledge(77, "parent".to_string());
    assert!(p.is_pledged());
    assert_eq!(p.restore(77), Ok("parent".to_string()));
    assert!(!p.is_pledged());
}

#[test]
fn restore_without_pledge_fails() {
    let mut p: PermissionsPledge<u8> = PermissionsPledge::new();
    assert_eq!(p.restore(1), Err(RestoreError::NoPermissionsToRestore));
}

#[test]
fn bench_registration() {
    let mut r = BenchRegistry::new();
    assert_eq!(r.register(true), BenchRegisterResult { id: 0, filtered_out: false });
    assert_eq!(r.register(false), BenchRegisterResult { id: 1, filtered_out: true });
    assert_eq!(r.register(true), BenchRegisterResult { id: 2, filtered_out: false });
    assert_eq!(r.next_id, 3);
    assert_eq!(r.registered, 2);
    let u = Unstable(true);
    assert!(u.0);
}
