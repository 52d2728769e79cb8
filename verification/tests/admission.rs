use liro::admission::Admission;

const GUILD: u64 = 7001;
const USER: u64 = 42;

#[test]
fn member_is_admitted_once() {
    let mut admission = Admission::new();
    assert!(!admission.is_inside(GUILD, USER));
    assert!(admission.enter(GUILD, USER));
    assert!(admission.is_inside(GUILD, USER));
    assert!(!admission.enter(GUILD, USER));
    assert!(!admission.enter(GUILD, USER));
    assert!(admission.is_inside(GUILD, USER));
}

#[test]
fn member_is_admitted_again_after_leave() {
    let mut admission = Admission::new();
    assert!(admission.enter(GUILD, USER));
    admission.leave(GUILD, USER);
    assert!(!admission.is_inside(GUILD, USER));
    assert!(admission.enter(GUILD, USER));
}

#[test]
fn members_are_admitted_apart() {
    let mut admission = Admission::new();
    assert!(admission.enter(GUILD, USER));
    assert!(admission.enter(GUILD, USER + 1));
    assert!(admission.enter(GUILD + 1, USER));
    assert!(!admission.enter(GUILD, USER));
    admission.leave(GUILD, USER + 1);
    assert!(admission.is_inside(GUILD, USER));
    assert!(!admission.is_inside(GUILD, USER + 1));
    assert!(admission.is_inside(GUILD + 1, USER));
}

#[test]
fn leaving_without_entering_changes_nothing() {
    let mut admission = Admission::new();
    admission.leave(GUILD, USER);
    assert!(!admission.is_inside(GUILD, USER));
    assert!(admission.enter(GUILD, USER));
}
