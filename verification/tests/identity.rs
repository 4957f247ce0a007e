use quadratic_voting::identity::{Error, Pallet};

// Caller authentication (a force-origin gate in a full runtime) sits
// outside the library, so only the registry's own answers are asserted
// here.

#[test]
fn setting_new_identity_works() {
    let account: u64 = 0x432445325;
    let name = String::from("Jhonny").into_bytes();
    let mut registry = Pallet::new();
    assert!(registry.set_identity(account, name.clone()).is_ok());
    assert_eq!(registry.identity_of(account), Some(&name));
    assert_eq!(registry.set_identity(account, Vec::new()), Err(Error::EmptyName));
}

#[test]
fn removing_identity_works() {
    let account: u64 = 0x432445325;
    let mut registry = Pallet::new();
    assert_eq!(registry.remove_identity(account), Err(Error::AccountHasNoIdentity));
}

#[test]
fn setting_again_overwrites_the_name() {
    let mut registry = Pallet::new();
    assert!(registry.set_identity(5, b"first".to_vec()).is_ok());
    assert!(registry.set_identity(5, b"second".to_vec()).is_ok());
    assert_eq!(registry.identity_of(5), Some(&b"second".to_vec()));
}

#[test]
fn removed_identity_is_gone() {
    let mut registry = Pallet::new();
    assert!(registry.set_identity(5, b"first".to_vec()).is_ok());
    assert!(registry.remove_identity(5).is_ok());
    assert_eq!(registry.identity_of(5), None);
    assert_eq!(registry.remove_identity(5), Err(Error::AccountHasNoIdentity));
}
