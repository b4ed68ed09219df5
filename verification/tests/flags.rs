use reedos_address_space::AsError;
use reedos_address_space::FlagBuilder;
use reedos_address_space::Flags;

#[test]
fn flag_builder_starts_empty() {
    let b = FlagBuilder::new();
    assert!(!b.read && !b.write && !b.execute && !b.cow && !b.private && !b.shared);
    assert_eq!(b, Flags::build());
}

#[test]
fn and_unions_rights() {
    let rw = Flags::read().and(Flags::write());
    assert!(rw.read);
    assert!(rw.write);
    assert!(!rw.execute);
    assert!(!rw.cow);
    assert!(!rw.private);
    assert!(!rw.shared);
}

#[test]
fn and_commutes() {
    let a = Flags::read().and(Flags::execute()).toggle_cow();
    let b = Flags::write().toggle_shared();
    assert_eq!(a.and(b), b.and(a));
}

#[test]
fn but_not_self_is_all_false() {
    let cases = [
        FlagBuilder::new(),
        Flags::read().and(Flags::write()).and(Flags::execute()),
        Flags::cow().toggle_private(),
        Flags::shared().toggle_read().toggle_write(),
    ];
    for x in cases {
        assert_eq!(x.but_not(x), FlagBuilder::new());
    }
}

#[test]
fn but_not_removes_only_shared_rights() {
    let read_execute = Flags::read().toggle_execute();
    let execute = Flags::execute();
    assert_eq!(read_execute.but_not(execute), Flags::read());
}

#[test]
fn validate_accepts_coherent_flags() {
    let flags = Flags::build()
        .toggle_read()
        .toggle_write()
        .validate()
        .expect("read and write are coherent");
    // A validated value reopens into the builder it came from.
    assert_eq!(flags.into_builder(), Flags::read().and(Flags::write()));
}

#[test]
fn validate_rejects_private_and_shared() {
    let result = Flags::build().toggle_private().toggle_shared().validate();
    assert_eq!(result, Err(AsError::InvalidFlags));
}

#[test]
fn toggle_and_set_work_per_flag() {
    let b = FlagBuilder::new()
        .toggle_read()
        .toggle_write()
        .toggle_execute()
        .toggle_cow()
        .toggle_private()
        .toggle_shared();
    assert!(b.read && b.write && b.execute && b.cow && b.private && b.shared);

    let b = b.toggle_private().toggle_shared();
    assert!(!b.private && !b.shared);

    let b = b
        .set_read(false)
        .set_write(false)
        .set_execute(false)
        .set_cow(false)
        .set_private(true)
        .set_shared(false);
    assert!(!b.read && !b.write && !b.execute && !b.cow && b.private && !b.shared);
    assert!(b.validate().is_ok());
}
