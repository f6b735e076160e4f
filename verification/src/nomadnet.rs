//! Small static-page adapter for the public `nomadnetwork.node` destination.
//!
//! This module owns only the destination registration, the page registry, and what a request
//! is answered. Page bytes remain caller-supplied and opaque; markup parsing, MIME policy, and
//! filesystem access belong above it, and so does the link a request arrives on.

use std::time::Duration;
use vstd::prelude::*;
use vstd::string::StringExecFns;

use crate::announce::ANNOUNCE_NONCE_LEN;
use crate::bytes;
use crate::destination::{destination_of, dotted, name_hash_of, DestinationName};
use crate::endpoint::router::{registers, Endpoint, EndpointError, LinkFactKind};
use crate::endpoint::sessions::{PayloadMode, ResourceTransferConfig, HASHMAP_MAX_PARTS};
use crate::hash::{address_of, AddressHash};
use crate::identity::Identity;
use crate::table::Table;
use crate::text::{append_decimal, decimal};
use crate::time::whole_millis;

verus! {

/// The public Nomad Network node destination name.
pub const NODE_NAME: &'static str = "nomadnetwork";

/// The public Nomad Network node destination aspect.
pub const NODE_ASPECT: &'static str = "node";

/// The default path used by a node's index page: `/page/index.mu`.
pub const INDEX_PATH: [u8; 14] = [
    0x2f, 0x70, 0x61, 0x67, 0x65, 0x2f, 0x69,
    0x6e, 0x64, 0x65, 0x78, 0x2e, 0x6d, 0x75,
];

/// The most bytes a page may have, unless told otherwise.
pub const MAX_PAGE_BYTES: usize = 4_194_304;

/// Hash a page path using the request envelope's wire-defined truncation.
pub fn page_path_hash(path: &[u8]) -> (hash: AddressHash)
    ensures
        hash@ == address_of(path@),
{
    AddressHash::of(path)
}

/// A bounded policy for static pages and their transfer.
#[derive(Clone, Copy, Debug)]
pub struct StaticPageConfig {
    /// Maximum body bytes accepted for one page.
    pub max_page_bytes: usize,
    /// Resource retry, request-window, and total-transfer policy.
    pub transfer: ResourceTransferConfig,
}

/// Client policy for one page fetch. `max_page_bytes` is checked after the response was
/// reassembled and verified; it is not a wire-level allocation ceiling.
#[derive(Clone, Copy, Debug)]
pub struct FetchPageConfig {
    pub max_page_bytes: usize,
    pub transfer: ResourceTransferConfig,
}

impl Default for StaticPageConfig {
    fn default() -> (config: Self)
        ensures
            config.max_page_bytes == MAX_PAGE_BYTES,
            whole_millis(config.transfer.timeout) == 60_000,
            whole_millis(config.transfer.retry_interval) == 500,
            config.transfer.request_window == HASHMAP_MAX_PARTS,
    {
        let usual = ResourceTransferConfig::default();
        StaticPageConfig {
            max_page_bytes: MAX_PAGE_BYTES,
            transfer: ResourceTransferConfig { timeout: Duration::from_secs(60), ..usual },
        }
    }
}

impl Default for FetchPageConfig {
    fn default() -> (config: Self)
        ensures
            config.max_page_bytes == MAX_PAGE_BYTES,
            whole_millis(config.transfer.timeout) == 60_000,
            whole_millis(config.transfer.retry_interval) == 500,
            config.transfer.request_window == HASHMAP_MAX_PARTS,
    {
        let usual = StaticPageConfig::default();
        FetchPageConfig { max_page_bytes: usual.max_page_bytes, transfer: usual.transfer }
    }
}

/// Why a page is not taken.
#[derive(Clone, Copy, Debug, PartialEq, Eq, Structural)]
pub enum PageError {
    InvalidPath,
    BodyTooLarge { actual: usize, maximum: usize },
}

impl PageError {
    /// What the error says.
    pub open spec fn words(self) -> Seq<char> {
        match self {
            PageError::InvalidPath => "page path must be absolute, non-empty, and NUL-free"@,
            PageError::BodyTooLarge { actual, maximum } => "page body is "@ + decimal(actual as nat)
                + " bytes, maximum is "@ + decimal(maximum as nat),
        }
    }

    /// What went wrong, in words.
    pub fn message(&self) -> (text: String)
        ensures
            text@ == self.words(),
    {
        match self {
            PageError::InvalidPath => String::from_str(
                "page path must be absolute, non-empty, and NUL-free",
            ),
            PageError::BodyTooLarge { actual, maximum } => {
                let mut text = String::from_str("page body is ");
                append_decimal(&mut text, *actual);
                text.append(" bytes, maximum is ");
                append_decimal(&mut text, *maximum);
                text
            },
        }
    }
}

/// Why a request is not answered.
#[derive(Clone, Copy, Debug, PartialEq, Eq, Structural)]
pub enum ServeError {
    /// It came in for another destination.
    UnexpectedDestination,
    /// It carries data, which a static page takes none of.
    UnexpectedData,
    /// No page is registered under its path.
    NotRegistered,
}

impl ServeError {
    /// What the error says.
    pub open spec fn words(self) -> Seq<char> {
        match self {
            ServeError::UnexpectedDestination => "unexpected Nomad Network destination"@,
            ServeError::UnexpectedData => "static page request carries unexpected data"@,
            ServeError::NotRegistered => "static page not registered"@,
        }
    }

    /// What went wrong, in words.
    pub fn message(&self) -> (text: &'static str)
        ensures
            text@ == self.words(),
    {
        match self {
            ServeError::UnexpectedDestination => "unexpected Nomad Network destination",
            ServeError::UnexpectedData => "static page request carries unexpected data",
            ServeError::NotRegistered => "static page not registered",
        }
    }
}

/// Why a fetched page is not handed on.
#[derive(Clone, Copy, Debug, PartialEq, Eq, Structural)]
pub struct PageTooLarge {
    /// The most bytes the caller takes.
    pub maximum: usize,
}

impl PageTooLarge {
    /// What the error says.
    pub open spec fn words(self) -> Seq<char> {
        "page response exceeds "@ + decimal(self.maximum as nat) + " byte cap"@
    }

    /// What went wrong, in words.
    pub fn message(&self) -> (text: String)
        ensures
            text@ == self.words(),
    {
        let mut text = String::from_str("page response exceeds ");
        append_decimal(&mut text, self.maximum);
        text.append(" byte cap");
        text
    }
}

/// Result of serving one registered page.
#[derive(Clone, Copy, Debug, PartialEq, Eq)]
pub struct ServedPage {
    pub path_hash: AddressHash,
    pub body_bytes: usize,
    pub mode: PayloadMode,
}

/// A path of a static page: absolute, non-empty, and free of NUL bytes.
pub open spec fn path_is_valid(path: Seq<u8>) -> bool {
    path.len() > 0 && path[0] == 0x2f && !path.contains(0)
}

/// Check a page path.
pub fn validate_path(path: &[u8]) -> (result: Result<(), PageError>)
    ensures
        result == (if path_is_valid(path@) {
            Ok::<(), PageError>(())
        } else {
            Err::<(), PageError>(PageError::InvalidPath)
        }),
{
    if path.len() == 0 || path[0] != 0x2f {
        return Err(PageError::InvalidPath);
    }
    let mut i: usize = 0;
    while i < path.len()
        invariant
            i <= path.len(),
            forall|j: int| 0 <= j < i ==> path@[j] != 0,
        decreases path.len() - i,
    {
        if path[i] == 0 {
            assert(path@.contains(0));
            return Err(PageError::InvalidPath);
        }
        i += 1;
    }
    Ok(())
}

/// The state of a static node.
pub struct NodePages {
    pub name: Seq<char>,
    /// The pages, by path hash.
    pub pages: Map<AddressHash, Seq<u8>>,
    pub config: StaticPageConfig,
    pub app_data: Seq<u8>,
}

impl NodePages {
    /// With a page put in.
    pub open spec fn with_page(self, path: Seq<u8>, body: Seq<u8>) -> NodePages {
        NodePages {
            pages: self.pages.insert(AddressHash::with(address_of(path)), body),
            ..self
        }
    }

    /// What a request for a path is answered.
    pub open spec fn answer(self, path_hash: AddressHash, data: Seq<u8>) -> Result<
        Seq<u8>,
        ServeError,
    > {
        if data.len() > 0 {
            Err(ServeError::UnexpectedData)
        } else if !self.pages.contains_key(path_hash) {
            Err(ServeError::NotRegistered)
        } else {
            Ok(self.pages[path_hash])
        }
    }

    /// The destination of the node on an identity.
    pub open spec fn destination(self, identity: Seq<u8>) -> Seq<u8> {
        destination_of(name_hash_of(self.name), address_of(identity))
    }
}

/// A caller-owned static Nomad Network node.
pub struct StaticNode {
    name: DestinationName,
    pages: Table<AddressHash, Vec<u8>>,
    config: StaticPageConfig,
    app_data: Vec<u8>,
}

impl View for StaticNode {
    type V = NodePages;

    closed spec fn view(&self) -> NodePages {
        NodePages {
            name: self.name@,
            pages: self.pages.view().map_values(|body: Vec<u8>| body@),
            config: self.config,
            app_data: self.app_data@,
        }
    }
}

impl Default for StaticNode {
    fn default() -> (node: Self)
        ensures
            node.inv(),
            node@.name == dotted(NODE_NAME@, seq![NODE_ASPECT]),
            node@.pages == Map::<AddressHash, Seq<u8>>::empty(),
            node@.app_data == Seq::<u8>::empty(),
            node@.config.max_page_bytes == MAX_PAGE_BYTES,
            whole_millis(node@.config.transfer.timeout) == 60_000,
            whole_millis(node@.config.transfer.retry_interval) == 500,
            node@.config.transfer.request_window == HASHMAP_MAX_PARTS,
    {
        Self::new()
    }
}

impl StaticNode {
    /// The registry is in order.
    pub closed spec fn inv(self) -> bool {
        self.pages.inv()
    }

    /// Create an empty `nomadnetwork.node` page registry.
    pub fn new() -> (node: Self)
        ensures
            node.inv(),
            node@.name == dotted(NODE_NAME@, seq![NODE_ASPECT]),
            node@.pages == Map::<AddressHash, Seq<u8>>::empty(),
            node@.app_data == Seq::<u8>::empty(),
            node@.config.max_page_bytes == MAX_PAGE_BYTES,
            whole_millis(node@.config.transfer.timeout) == 60_000,
            whole_millis(node@.config.transfer.retry_interval) == 500,
            node@.config.transfer.request_window == HASHMAP_MAX_PARTS,
    {
        let aspects: [&str; 1] = [NODE_ASPECT];
        let listed: &[&str] = &aspects;
        proof {
            assert(listed@ =~= seq![NODE_ASPECT]);
        }
        let node = StaticNode {
            name: DestinationName::new(NODE_NAME, listed),
            pages: Table::new(),
            config: StaticPageConfig::default(),
            app_data: Vec::new(),
        };
        proof {
            assert(node@.pages =~= Map::<AddressHash, Seq<u8>>::empty());
        }
        node
    }

    /// The policy in force.
    pub fn config(&self) -> (config: StaticPageConfig)
        ensures
            config == self@.config,
    {
        self.config
    }

    /// Replace the policy. Pages already taken stay.
    pub fn set_config(&mut self, config: StaticPageConfig)
        requires
            old(self).inv(),
        ensures
            final(self).inv(),
            final(self)@ == (NodePages { config, ..old(self)@ }),
    {
        self.config = config;
    }

    /// Replace the announce application data. It is not interpreted by this adapter.
    pub fn set_app_data(&mut self, app_data: Vec<u8>)
        requires
            old(self).inv(),
        ensures
            final(self).inv(),
            final(self)@ == (NodePages { app_data: app_data@, ..old(self)@ }),
    {
        self.app_data = app_data;
    }

    /// The name of the destination.
    pub fn name(&self) -> (name: &DestinationName)
        ensures
            name@ == self@.name,
    {
        &self.name
    }

    /// The destination of the node on an identity.
    pub fn destination(&self, identity: &Identity) -> (hash: AddressHash)
        ensures
            hash@ == self@.destination(identity@),
    {
        self.name.destination_hash(identity)
    }

    /// How many pages are registered.
    pub fn page_count(&self) -> (n: usize)
        requires
            self.inv(),
        ensures
            n == self@.pages.len(),
            self@.pages.dom().finite(),
    {
        proof {
            self.pages.lemma_size();
            assert(self@.pages.dom() =~= self.pages.view().dom());
        }
        self.pages.len()
    }

    /// The page registered under a path hash.
    pub fn page(&self, path_hash: &AddressHash) -> (body: Option<&Vec<u8>>)
        requires
            self.inv(),
        ensures
            body is Some <==> self@.pages.contains_key(*path_hash),
            body matches Some(b) ==> b@ == self@.pages[*path_hash],
    {
        self.pages.get(path_hash)
    }

    /// Add or replace a page. Paths are opaque bytes with a conservative static path boundary:
    /// absolute, non-empty, and free of NUL bytes.
    pub fn insert_page(&mut self, path: &[u8], body: Vec<u8>) -> (result: Result<(), PageError>)
        requires
            old(self).inv(),
        ensures
            final(self).inv(),
            match result {
                Err(PageError::InvalidPath) => !path_is_valid(path@),
                Err(PageError::BodyTooLarge { actual, maximum }) => path_is_valid(path@) && actual
                    == body@.len() && maximum == old(self)@.config.max_page_bytes && actual
                    > maximum,
                Ok(()) => path_is_valid(path@) && body@.len() <= old(self)@.config.max_page_bytes,
            },
            result is Ok ==> final(self)@ == old(self)@.with_page(path@, body@),
            result is Err ==> final(self)@ == old(self)@,
    {
        if let Err(error) = validate_path(path) {
            return Err(error);
        }
        if body.len() > self.config.max_page_bytes {
            return Err(
                PageError::BodyTooLarge {
                    actual: body.len(),
                    maximum: self.config.max_page_bytes,
                },
            );
        }
        let hash = page_path_hash(path);
        let ghost before = self@;
        self.pages.insert(hash, body);
        proof {
            AddressHash::lemma_with(hash);
            assert(self@.pages =~= before.pages.insert(hash, body@));
        }
        Ok(())
    }

    /// Register this destination and announce it on an endpoint.
    pub fn register(
        &self,
        endpoint: &mut Endpoint,
        source_seconds: u64,
        nonce: [u8; ANNOUNCE_NONCE_LEN],
    ) -> (result: Result<(), EndpointError>)
        requires
            old(endpoint).inv(),
        ensures
            final(endpoint).inv(),
            registers(
                old(endpoint)@,
                final(endpoint)@,
                result,
                self@.name,
                self@.app_data,
                LinkFactKind::Resource,
                None,
                source_seconds,
                nonce@,
            ),
    {
        endpoint.register_resource(
            self.name.clone(),
            self.app_data.as_slice(),
            source_seconds,
            nonce,
        )
    }

    /// Whether a session accepted for `destination` on an identity is for this node.
    pub fn accepts(&self, destination: &AddressHash, identity: &Identity) -> (result: Result<
        (),
        ServeError,
    >)
        ensures
            result == (if destination@ == self@.destination(identity@) {
                Ok::<(), ServeError>(())
            } else {
                Err::<(), ServeError>(ServeError::UnexpectedDestination)
            }),
    {
        let own = self.destination(identity);
        if bytes::equal(destination.as_slice(), own.as_slice()) {
            Ok(())
        } else {
            Err(ServeError::UnexpectedDestination)
        }
    }

    /// What an already-received request is answered from the current pages.
    pub fn answer(&self, path_hash: &AddressHash, data: &[u8]) -> (body: Result<
        Vec<u8>,
        ServeError,
    >)
        requires
            self.inv(),
        ensures
            match body {
                Ok(b) => self@.answer(*path_hash, data@) == Ok::<Seq<u8>, ServeError>(b@),
                Err(e) => self@.answer(*path_hash, data@) == Err::<Seq<u8>, ServeError>(e),
            },
    {
        if data.len() > 0 {
            return Err(ServeError::UnexpectedData);
        }
        match self.page(path_hash) {
            None => Err(ServeError::NotRegistered),
            Some(body) => Ok(bytes::copy_all(body.as_slice())),
        }
    }
}

/// A fetched page, if it is within the caller's cap.
pub fn take_page(data: Vec<u8>, config: &FetchPageConfig) -> (page: Result<Vec<u8>, PageTooLarge>)
    ensures
        data@.len() <= config.max_page_bytes ==> page == Ok::<Vec<u8>, PageTooLarge>(data),
        data@.len() > config.max_page_bytes ==> page == Err::<Vec<u8>, PageTooLarge>(
            (PageTooLarge { maximum: config.max_page_bytes }),
        ),
{
    if data.len() > config.max_page_bytes {
        Err(PageTooLarge { maximum: config.max_page_bytes })
    } else {
        Ok(data)
    }
}

// ---------------------------------------------------------------------------------------
// Laws.
/// A request for a page is answered with the bytes it was registered with, whatever they are.
pub proof fn law_registered_page_is_served(node: NodePages, path: Seq<u8>, body: Seq<u8>)
    ensures
        node.with_page(path, body).answer(AddressHash::with(address_of(path)), Seq::empty())
            == Ok::<Seq<u8>, ServeError>(body),
{
}

/// Putting in a page leaves the pages under other path hashes as they were.
pub proof fn law_other_pages_stay(
    node: NodePages,
    path: Seq<u8>,
    body: Seq<u8>,
    other: AddressHash,
    data: Seq<u8>,
)
    requires
        other != AddressHash::with(address_of(path)),
    ensures
        node.with_page(path, body).answer(other, data) == node.answer(other, data),
{
}

/// A request is answered by the page under its path hash, and only a bare one: with data it is
/// refused for that, and without a page for want of it.
pub proof fn law_request_is_answered_by_its_page(
    node: NodePages,
    path_hash: AddressHash,
    data: Seq<u8>,
)
    ensures
        data.len() > 0 ==> node.answer(path_hash, data) == Err::<Seq<u8>, ServeError>(
            ServeError::UnexpectedData,
        ),
        data.len() == 0 && !node.pages.contains_key(path_hash) ==> node.answer(path_hash, data)
            == Err::<Seq<u8>, ServeError>(ServeError::NotRegistered),
        data.len() == 0 && node.pages.contains_key(path_hash) ==> node.answer(path_hash, data)
            == Ok::<Seq<u8>, ServeError>(node.pages[path_hash]),
{
}

/// A page is kept under the hash of its path, in place of what was there; the node stays the
/// same otherwise.
pub proof fn law_page_is_kept_under_its_path(
    node: NodePages,
    path: Seq<u8>,
    body: Seq<u8>,
    hash: AddressHash,
)
    requires
        hash@ == address_of(path),
    ensures
        node.with_page(path, body).pages == node.pages.insert(hash, body),
        node.with_page(path, body).name == node.name,
        node.with_page(path, body).config == node.config,
        node.with_page(path, body).app_data == node.app_data,
{
    AddressHash::lemma_with(hash);
}

/// A path is valid where it begins with a slash and holds no zero byte.
pub proof fn law_path_begins_with_a_slash(path: Seq<u8>)
    ensures
        path_is_valid(path) <==> path.len() > 0 && path[0] == 47 && (forall|i: int|
            0 <= i < path.len() ==> #[trigger] path[i] != 0),
{
    if !path.contains(0) {
        assert forall|i: int| 0 <= i < path.len() implies #[trigger] path[i] != 0 by {}
    }
}

} // verus!
