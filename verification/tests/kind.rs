use portals::kind::{Color, Portal1, Portal2, PortalId, PortalKind};

#[test]
fn each_identity_pairs_with_the_other() {
    assert_eq!(PortalId::A.pair(), PortalId::B);
    assert_eq!(PortalId::B.pair(), PortalId::A);
    assert_eq!(PortalId::A.pair().pair(), PortalId::A);
    assert_eq!(PortalId::B.pair().pair(), PortalId::B);
}

#[test]
fn the_identities_have_distinct_colours() {
    assert_eq!(PortalId::A.color(), Color { red: 600, green: 700, blue: 800 });
    assert_eq!(PortalId::B.color(), Color { red: 800, green: 700, blue: 600 });
    assert_ne!(PortalId::A.color(), PortalId::B.color());
}

#[test]
fn the_portal_types_stand_for_the_identities() {
    assert_eq!(<Portal1 as PortalKind>::id(), PortalId::A);
    assert_eq!(<Portal2 as PortalKind>::id(), PortalId::B);
    assert_eq!(<Portal1 as PortalKind>::color(), PortalId::A.color());
    assert_eq!(<Portal2 as PortalKind>::color(), PortalId::B.color());
    let _first: Portal1 = PortalKind::new();
    let _second: Portal2 = PortalKind::new();
}
