//! Pairing framebuffers with AV services.

use display_studio::macos::ioreg::{
    node_kind, services_for_matching, wants_service, IoregService, Node, NodeKind, AV_PROXY_KEY,
    FRAMEBUFFER_KEYS,
};

/// A substring test accepts DCPAVServiceProxyUserClient and duplicates the
/// preceding framebuffer's record, enumerating one physical monitor twice.
#[test]
fn av_proxy_key_matches_exactly_not_by_substring() {
    assert_eq!("DCPAVServiceProxy", AV_PROXY_KEY);
    assert_ne!("DCPAVServiceProxyUserClient", AV_PROXY_KEY);
    assert!("DCPAVServiceProxyUserClient".contains(AV_PROXY_KEY));
}

#[test]
fn framebuffer_keys_match_exactly_not_by_substring() {
    assert!(FRAMEBUFFER_KEYS.contains(&"IOMobileFramebufferShim"));
    assert!(!FRAMEBUFFER_KEYS.contains(&"IOMobileFramebufferShimUserClient"));
}

#[test]
fn nodes_are_told_apart_by_their_whole_name() {
    assert_eq!(node_kind("AppleCLCD2"), NodeKind::Framebuffer);
    assert_eq!(node_kind("IOMobileFramebufferShim"), NodeKind::Framebuffer);
    assert_eq!(node_kind("DCPAVServiceProxy"), NodeKind::AvProxy);
    assert_eq!(node_kind("DCPAVServiceProxyUserClient"), NodeKind::Other);
    assert_eq!(node_kind("IOMobileFramebufferShimUserClient"), NodeKind::Other);
}

fn framebuffer(name: &str) -> Node {
    Node::Framebuffer(IoregService {
        product_name: name.into(),
        ..Default::default()
    })
}

fn proxy(location: Option<&str>, service: usize) -> Node {
    Node::AvProxy {
        location: location.map(|l| l.to_string()),
        service,
    }
}

#[test]
fn each_proxy_is_stitched_onto_the_framebuffer_before_it() {
    let found = services_for_matching(&vec![
        framebuffer("A"),
        proxy(Some("External"), 0x1000),
        framebuffer("B"),
        proxy(Some("External"), 0x2000),
    ]);
    assert_eq!(found.len(), 2);
    assert_eq!(found[0].product_name, "A");
    assert_eq!(found[0].service, 0x1000);
    assert_eq!(found[0].service_location, 1);
    assert_eq!(found[1].product_name, "B");
    assert_eq!(found[1].service, 0x2000);
    assert_eq!(found[1].service_location, 2);
}

#[test]
fn the_embedded_panel_gets_no_channel() {
    assert!(wants_service(&Some("External".to_string())));
    assert!(!wants_service(&Some("Embedded".to_string())));
    assert!(!wants_service(&None));
    let found = services_for_matching(&vec![framebuffer("Panel"), proxy(Some("Embedded"), 0)]);
    assert_eq!(found.len(), 1);
    assert_eq!(found[0].location, "Embedded");
    assert_eq!(found[0].service, 0);
}
