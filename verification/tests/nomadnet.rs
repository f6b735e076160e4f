//! Static pages.

use retinue::endpoint::router::Endpoint;
use retinue::nomadnet::{
    page_path_hash, take_page, FetchPageConfig, PageError, PageTooLarge, ServeError, StaticNode,
    StaticPageConfig, INDEX_PATH,
};
use retinue::{AddressHash, PrivateIdentity};

#[test]
fn stock_index_path_hash_is_stable() {
    assert_eq!(
        page_path_hash(&INDEX_PATH).to_hex(),
        "fb40abf359b3f25fa0086107c5eee516"
    );
}

#[test]
fn registry_keeps_opaque_page_bytes_by_path_hash() {
    let mut node = StaticNode::new();
    node.insert_page(&INDEX_PATH, b"Native Retinue page\n".to_vec())
        .unwrap();
    assert_eq!(node.page_count(), 1);
    assert_eq!(
        node.page(&page_path_hash(&INDEX_PATH)).unwrap(),
        b"Native Retinue page\n"
    );
}

#[test]
fn registry_rejects_unsafe_or_oversize_pages() {
    let mut node = StaticNode::new();
    assert_eq!(
        node.insert_page(b"page/index.mu", Vec::new()),
        Err(PageError::InvalidPath)
    );
    assert_eq!(
        node.insert_page(b"/page/\0.mu", Vec::new()),
        Err(PageError::InvalidPath)
    );
    node.set_config(StaticPageConfig {
        max_page_bytes: 3,
        ..node.config()
    });
    assert_eq!(
        node.insert_page(b"/page/x.mu", b"four".to_vec()),
        Err(PageError::BodyTooLarge {
            actual: 4,
            maximum: 3
        })
    );
}

#[test]
fn the_index_path_is_spelled_out() {
    assert_eq!(&INDEX_PATH[..], b"/page/index.mu");
}

#[test]
fn requests_are_answered_from_the_pages() {
    let mut node = StaticNode::new();
    node.insert_page(&INDEX_PATH, b"small page\n".to_vec())
        .unwrap();
    node.insert_page(b"/page/large.mu", vec![b'x'; 128 * 1024])
        .unwrap();
    assert_eq!(
        node.answer(&page_path_hash(&INDEX_PATH), &[]),
        Ok(b"small page\n".to_vec())
    );
    assert_eq!(
        node.answer(&page_path_hash(b"/page/large.mu"), &[])
            .unwrap()
            .len(),
        128 * 1024
    );
    assert_eq!(
        node.answer(&page_path_hash(b"/page/missing.mu"), &[]),
        Err(ServeError::NotRegistered)
    );
    assert_eq!(
        node.answer(&page_path_hash(&INDEX_PATH), b"unexpected"),
        Err(ServeError::UnexpectedData)
    );

    // A page put in again replaces the first.
    node.insert_page(&INDEX_PATH, b"newer".to_vec()).unwrap();
    assert_eq!(node.page_count(), 2);
    assert_eq!(
        node.answer(&page_path_hash(&INDEX_PATH), &[]),
        Ok(b"newer".to_vec())
    );
}

#[test]
fn only_the_own_destination_is_served() {
    let node = StaticNode::new();
    let server = PrivateIdentity::from_secret_bytes(&[0x66; 64]);
    let destination = node.destination(server.public());
    assert_eq!(node.accepts(&destination, server.public()), Ok(()));
    assert_eq!(
        node.accepts(&AddressHash::from_bytes([1; 16]), server.public()),
        Err(ServeError::UnexpectedDestination)
    );
}

#[test]
fn registering_announces_the_node() {
    let mut node = StaticNode::new();
    node.set_app_data(b"pages".to_vec());
    let mut endpoint = Endpoint::new(PrivateIdentity::from_secret_bytes(&[0x66; 64]));
    assert!(node.register(&mut endpoint, 1_000, [1; 5]).is_ok());
    assert_eq!(node.name().expanded(), "nomadnetwork.node");
}

#[test]
fn a_fetched_page_is_capped() {
    let config = FetchPageConfig {
        max_page_bytes: 3,
        ..FetchPageConfig::default()
    };
    assert_eq!(take_page(b"abc".to_vec(), &config), Ok(b"abc".to_vec()));
    assert_eq!(
        take_page(b"abcd".to_vec(), &config),
        Err(PageTooLarge { maximum: 3 })
    );
}

#[test]
fn errors_say_what_went_wrong() {
    assert_eq!(
        PageError::InvalidPath.message(),
        "page path must be absolute, non-empty, and NUL-free"
    );
    assert_eq!(
        PageError::BodyTooLarge {
            actual: 4_194_305,
            maximum: 0
        }
        .message(),
        "page body is 4194305 bytes, maximum is 0"
    );
    assert_eq!(
        PageTooLarge { maximum: 10 }.message(),
        "page response exceeds 10 byte cap"
    );
    assert_eq!(
        ServeError::UnexpectedDestination.message(),
        "unexpected Nomad Network destination"
    );
    assert_eq!(
        ServeError::UnexpectedData.message(),
        "static page request carries unexpected data"
    );
    assert_eq!(
        ServeError::NotRegistered.message(),
        "static page not registered"
    );
}

#[test]
fn a_default_node_has_the_page_transfer_policy() {
    let usual = StaticNode::default();
    assert_eq!(usual.config().transfer.timeout.as_secs(), 60);
    assert_eq!(usual.config().transfer.retry_interval.as_millis(), 500);
    assert_eq!(usual.page_count(), 0);
}
