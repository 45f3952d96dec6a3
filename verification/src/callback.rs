//! The callback handler: routing, caching and correlation of
//! host-capability requests.
//!
//! Sandboxed policies raise capability requests — registry lookups,
//! signature verifications, cluster queries, DNS — on the handler's inbox.
//! The handler decides, for each request, whether it can answer at once
//! (a cache hit, or a Kubernetes capability without a configured client),
//! whether it must attach to an in-flight producer with the same
//! fingerprint, or whether it must invoke the provider; a provider outcome
//! is then settled back through the cache and serialised onto the
//! request's reply slot. The DNS capability is resolved here directly and
//! bypasses the cache, as do the explicit `disable_cache` variants.

use vstd::prelude::*;

use crate::cache::{CacheDecision, CapabilityCache, SlotView};
use crate::codec::{
    enc_bool, enc_bytes, enc_str, enc_str_list, enc_u64, push_bytes_blob, push_str_bytes,
    push_str_list, push_u64, spec_encode_response, strs_view, encode_response, ResponseValue,
    ResponseValueView,
};
use crate::errors::CapabilityError;
use crate::reply::ReplySlot;

verus! {

/// One `(issuer, subject)` identity for keyless verification.
pub struct KeylessInfo {
    pub issuer: String,
    pub subject: String,
}

/// One `(issuer, url_prefix)` identity family for keyless-prefix
/// verification.
pub struct KeylessPrefixInfo {
    pub issuer: String,
    pub url_prefix: String,
}

/// A host-capability request, as the sandbox raises it.
pub enum CapabilityRequestType {
    /// Resolve an image reference to its content digest.
    OciManifestDigest { image: String },
    /// Fetch an image's manifest document.
    OciManifest { image: String },
    /// Fetch an image's manifest together with its config blob.
    OciManifestAndConfig { image: String },
    /// Verify that one of the public keys signed the image.
    SigstorePubKeyVerify { image: String, pub_keys: Vec<String>, annotations: Option<Vec<String>> },
    /// Verify the image against `(issuer, subject)` identities.
    SigstoreKeylessVerify {
        image: String,
        keyless: Vec<KeylessInfo>,
        annotations: Option<Vec<String>>,
    },
    /// As keyless, but subjects match by URL prefix.
    SigstoreKeylessPrefixVerify {
        image: String,
        keyless_prefix: Vec<KeylessPrefixInfo>,
        annotations: Option<Vec<String>>,
    },
    /// Keyless check constrained to the GitHub Actions OIDC issuer.
    SigstoreGithubActionsVerify {
        image: String,
        owner: String,
        repo: Option<String>,
        annotations: Option<Vec<String>>,
    },
    /// Verify a signature against a user-supplied certificate.
    SigstoreCertificateVerify {
        image: String,
        certificate: Vec<u8>,
        certificate_chain: Option<Vec<Vec<u8>>>,
        require_rekor_bundle: bool,
        annotations: Option<Vec<String>>,
    },
    /// Resolve a hostname to its addresses.
    DNSLookupHost { host: String },
    /// List cluster resources in one namespace.
    KubernetesListResourceNamespace {
        api_version: String,
        kind: String,
        namespace: String,
        label_selector: Option<String>,
        field_selector: Option<String>,
    },
    /// List cluster resources across all namespaces.
    KubernetesListResourceAll {
        api_version: String,
        kind: String,
        label_selector: Option<String>,
        field_selector: Option<String>,
    },
    /// Fetch one cluster resource.
    KubernetesGetResource {
        api_version: String,
        kind: String,
        name: String,
        namespace: Option<String>,
        disable_cache: bool,
    },
    /// The plural name of a resource kind.
    KubernetesGetResourcePluralName { api_version: String, kind: String },
    /// Whether a list-all result has changed since the given instant,
    /// carried as seconds since the epoch.
    HasKubernetesListResourceAllResultChangedSinceInstant {
        api_version: String,
        kind: String,
        label_selector: Option<String>,
        field_selector: Option<String>,
        since_epoch_seconds: u64,
    },
    /// Whether the subject may perform the operation, carried as an
    /// opaque access-review document.
    KubernetesCanI { request: Vec<u8>, disable_cache: bool },
}

/// A serialised capability reply.
pub struct CallbackResponse {
    /// The payload bytes, as the codec produces them.
    pub payload: Vec<u8>,
}

/// A capability request together with its single-use reply slot.
pub struct CallbackRequest {
    pub request: CapabilityRequestType,
    pub reply: ReplySlot<Result<CallbackResponse, CapabilityError>>,
}

impl CallbackRequest {
    /// Build a capability request around a fresh, unwritten reply slot:
    /// what the evaluator's host callback submits on the handler's inbox
    /// before blocking on the slot.
    pub fn new(request: CapabilityRequestType) -> (r: CallbackRequest)
        ensures
            r.request == request,
            !r.reply.is_written(),
    {
        CallbackRequest { request, reply: ReplySlot::new() }
    }
}

impl CapabilityRequestType {
    /// Whether this capability needs the Kubernetes client.
    pub open spec fn spec_needs_kubernetes(&self) -> bool {
        match self {
            CapabilityRequestType::KubernetesListResourceNamespace { .. } => true,
            CapabilityRequestType::KubernetesListResourceAll { .. } => true,
            CapabilityRequestType::KubernetesGetResource { .. } => true,
            CapabilityRequestType::KubernetesGetResourcePluralName { .. } => true,
            CapabilityRequestType::HasKubernetesListResourceAllResultChangedSinceInstant {
                ..
            } => true,
            CapabilityRequestType::KubernetesCanI { .. } => true,
            _ => false,
        }
    }

    /// Whether this capability needs the Kubernetes client.
    pub fn needs_kubernetes(&self) -> (r: bool)
        ensures
            r == self.spec_needs_kubernetes(),
    {
        match self {
            CapabilityRequestType::KubernetesListResourceNamespace { .. } => true,
            CapabilityRequestType::KubernetesListResourceAll { .. } => true,
            CapabilityRequestType::KubernetesGetResource { .. } => true,
            CapabilityRequestType::KubernetesGetResourcePluralName { .. } => true,
            CapabilityRequestType::HasKubernetesListResourceAllResultChangedSinceInstant {
                ..
            } => true,
            CapabilityRequestType::KubernetesCanI { .. } => true,
            _ => false,
        }
    }

    /// Whether this request routes around the cache entirely: DNS, the
    /// change-detection probe, and the explicit `disable_cache` variants.
    pub open spec fn spec_bypasses_cache(&self) -> bool {
        match self {
            CapabilityRequestType::DNSLookupHost { .. } => true,
            CapabilityRequestType::HasKubernetesListResourceAllResultChangedSinceInstant {
                ..
            } => true,
            CapabilityRequestType::KubernetesGetResource { disable_cache, .. } => *disable_cache,
            CapabilityRequestType::KubernetesCanI { disable_cache, .. } => *disable_cache,
            _ => false,
        }
    }

    /// Whether this request routes around the cache entirely.
    pub fn bypasses_cache(&self) -> (r: bool)
        ensures
            r == self.spec_bypasses_cache(),
    {
        match self {
            CapabilityRequestType::DNSLookupHost { .. } => true,
            CapabilityRequestType::HasKubernetesListResourceAllResultChangedSinceInstant {
                ..
            } => true,
            CapabilityRequestType::KubernetesGetResource { disable_cache, .. } => *disable_cache,
            CapabilityRequestType::KubernetesCanI { disable_cache, .. } => *disable_cache,
            _ => false,
        }
    }
}

/// The encoding of an optional string: a presence flag, then the string.
pub open spec fn enc_opt_str(s: Option<Seq<char>>) -> Seq<u8> {
    match s {
        Some(t) => enc_bool(true) + enc_str(t),
        None => enc_bool(false),
    }
}

/// The encoding of an optional string list: a presence flag, then the
/// list.
pub open spec fn enc_opt_str_list(l: Option<Seq<Seq<char>>>) -> Seq<u8> {
    match l {
        Some(t) => enc_bool(true) + enc_str_list(t),
        None => enc_bool(false),
    }
}

/// The issuers of a keyless identity list.
pub open spec fn keyless_issuers(l: Seq<KeylessInfo>) -> Seq<Seq<char>> {
    Seq::new(l.len(), |i: int| l[i].issuer@)
}

/// The subjects of a keyless identity list.
pub open spec fn keyless_subjects(l: Seq<KeylessInfo>) -> Seq<Seq<char>> {
    Seq::new(l.len(), |i: int| l[i].subject@)
}

/// The issuers of a keyless-prefix identity list.
pub open spec fn prefix_issuers(l: Seq<KeylessPrefixInfo>) -> Seq<Seq<char>> {
    Seq::new(l.len(), |i: int| l[i].issuer@)
}

/// The URL prefixes of a keyless-prefix identity list.
pub open spec fn prefix_urls(l: Seq<KeylessPrefixInfo>) -> Seq<Seq<char>> {
    Seq::new(l.len(), |i: int| l[i].url_prefix@)
}

/// The deterministic fingerprint of a cacheable request: the variant's
/// tag byte followed by every input that affects the provider's result.
pub open spec fn spec_fingerprint(req: &CapabilityRequestType) -> Seq<u8> {
    match req {
        CapabilityRequestType::OciManifestDigest { image } => seq![1u8] + enc_str(image@),
        CapabilityRequestType::OciManifest { image } => seq![2u8] + enc_str(image@),
        CapabilityRequestType::OciManifestAndConfig { image } => seq![3u8] + enc_str(image@),
        CapabilityRequestType::SigstorePubKeyVerify { image, pub_keys, annotations } => seq![4u8]
            + enc_str(image@) + enc_str_list(strs_view(pub_keys@)) + enc_opt_str_list(
            spec_opt_strs(annotations),
        ),
        CapabilityRequestType::SigstoreKeylessVerify { image, keyless, annotations } => seq![5u8]
            + enc_str(image@) + enc_str_list(keyless_issuers(keyless@)) + enc_str_list(
            keyless_subjects(keyless@),
        ) + enc_opt_str_list(spec_opt_strs(annotations)),
        CapabilityRequestType::SigstoreKeylessPrefixVerify {
            image,
            keyless_prefix,
            annotations,
        } => seq![6u8] + enc_str(image@) + enc_str_list(prefix_issuers(keyless_prefix@))
            + enc_str_list(prefix_urls(keyless_prefix@)) + enc_opt_str_list(
            spec_opt_strs(annotations),
        ),
        CapabilityRequestType::SigstoreGithubActionsVerify {
            image,
            owner,
            repo,
            annotations,
        } => seq![7u8] + enc_str(image@) + enc_str(owner@) + enc_opt_str(spec_opt_str(repo))
            + enc_opt_str_list(spec_opt_strs(annotations)),
        CapabilityRequestType::SigstoreCertificateVerify {
            image,
            certificate,
            certificate_chain,
            require_rekor_bundle,
            annotations,
        } => seq![8u8] + enc_str(image@) + enc_bytes(certificate@) + enc_opt_blobs(
            certificate_chain,
        ) + enc_bool(*require_rekor_bundle) + enc_opt_str_list(spec_opt_strs(annotations)),
        CapabilityRequestType::DNSLookupHost { host } => seq![9u8] + enc_str(host@),
        CapabilityRequestType::KubernetesListResourceNamespace {
            api_version,
            kind,
            namespace,
            label_selector,
            field_selector,
        } => seq![10u8] + enc_str(api_version@) + enc_str(kind@) + enc_str(namespace@)
            + enc_opt_str(spec_opt_str(label_selector)) + enc_opt_str(
            spec_opt_str(field_selector),
        ),
        CapabilityRequestType::KubernetesListResourceAll {
            api_version,
            kind,
            label_selector,
            field_selector,
        } => seq![11u8] + enc_str(api_version@) + enc_str(kind@) + enc_opt_str(
            spec_opt_str(label_selector),
        ) + enc_opt_str(spec_opt_str(field_selector)),
        CapabilityRequestType::KubernetesGetResource {
            api_version,
            kind,
            name,
            namespace,
            ..
        } => seq![12u8] + enc_str(api_version@) + enc_str(kind@) + enc_str(name@) + enc_opt_str(
            spec_opt_str(namespace),
        ),
        CapabilityRequestType::KubernetesGetResourcePluralName { api_version, kind } => seq![13u8]
            + enc_str(api_version@) + enc_str(kind@),
        CapabilityRequestType::HasKubernetesListResourceAllResultChangedSinceInstant {
            api_version,
            kind,
            label_selector,
            field_selector,
            since_epoch_seconds,
        } => seq![14u8] + enc_str(api_version@) + enc_str(kind@) + enc_opt_str(
            spec_opt_str(label_selector),
        ) + enc_opt_str(spec_opt_str(field_selector)) + enc_u64(*since_epoch_seconds),
        CapabilityRequestType::KubernetesCanI { request, .. } => seq![15u8] + enc_bytes(request@),
    }
}

/// The view of an optional string field.
pub open spec fn spec_opt_str(s: &Option<String>) -> Option<Seq<char>> {
    match s {
        Some(t) => Some(t@),
        None => None,
    }
}

/// The view of an optional string-list field.
pub open spec fn spec_opt_strs(l: &Option<Vec<String>>) -> Option<Seq<Seq<char>>> {
    match l {
        Some(t) => Some(strs_view(t@)),
        None => None,
    }
}

/// The encoding of an optional certificate chain: a presence flag, then
/// the blob count and each blob.
pub open spec fn enc_opt_blobs(l: &Option<Vec<Vec<u8>>>) -> Seq<u8> {
    match l {
        Some(t) => enc_bool(true) + enc_u64(t@.len() as u64) + enc_blobs(blobs_view(t@)),
        None => enc_bool(false),
    }
}

/// The blobs of a vector, as byte sequences.
pub open spec fn blobs_view(v: Seq<Vec<u8>>) -> Seq<Seq<u8>> {
    Seq::new(v.len(), |i: int| v[i]@)
}

/// The blobs of `l`, each length-prefixed, one after the other.
pub open spec fn enc_blobs(l: Seq<Seq<u8>>) -> Seq<u8>
    decreases l.len(),
{
    if l.len() == 0 {
        Seq::empty()
    } else {
        enc_bytes(l[0]) + enc_blobs(l.drop_first())
    }
}

/// Appending one blob appends its encoding.
proof fn lemma_enc_blobs_snoc(l: Seq<Seq<u8>>, v: Seq<u8>)
    ensures
        enc_blobs(l.push(v)) == enc_blobs(l) + enc_bytes(v),
    decreases l.len(),
{
    if l.len() == 0 {
        assert(l.push(v).drop_first() =~= Seq::<Seq<u8>>::empty());
        assert(l.push(v)[0] == v);
        assert(enc_blobs(l.push(v)) == enc_bytes(v) + enc_blobs(Seq::<Seq<u8>>::empty()));
        assert(enc_blobs(l.push(v)) =~= enc_blobs(l) + enc_bytes(v));
    } else {
        assert(l.push(v).drop_first() =~= l.drop_first().push(v));
        lemma_enc_blobs_snoc(l.drop_first(), v);
        assert(l.push(v)[0] == l[0]);
        assert(enc_blobs(l.push(v)) == enc_bytes(l[0]) + (enc_blobs(l.drop_first())
            + enc_bytes(v)));
        assert(enc_blobs(l) == enc_bytes(l[0]) + enc_blobs(l.drop_first()));
        assert(enc_bytes(l[0]) + (enc_blobs(l.drop_first()) + enc_bytes(v)) =~= (enc_bytes(l[0])
            + enc_blobs(l.drop_first())) + enc_bytes(v));
    }
}

/// Append a boolean flag.
fn push_bool(out: &mut Vec<u8>, b: bool)
    ensures
        final(out)@ == old(out)@ + enc_bool(b),
{
    out.push(if b { 1 } else { 0 });
    proof {
        assert(out@ =~= old(out)@ + enc_bool(b));
    }
}

/// Append an optional string.
fn push_opt_str(out: &mut Vec<u8>, s: &Option<String>)
    ensures
        final(out)@ == old(out)@ + enc_opt_str(spec_opt_str(s)),
{
    match s {
        Some(t) => {
            push_bool(out, true);
            push_str_bytes(out, t);
            proof {
                assert(out@ =~= old(out)@ + enc_opt_str(spec_opt_str(s)));
            }
        },
        None => {
            push_bool(out, false);
        },
    }
}

/// Append an optional string list.
fn push_opt_str_list(out: &mut Vec<u8>, l: &Option<Vec<String>>)
    ensures
        final(out)@ == old(out)@ + enc_opt_str_list(spec_opt_strs(l)),
{
    match l {
        Some(t) => {
            push_bool(out, true);
            push_str_list(out, t);
            proof {
                assert(out@ =~= old(out)@ + enc_opt_str_list(spec_opt_strs(l)));
            }
        },
        None => {
            push_bool(out, false);
        },
    }
}

/// Append an optional certificate chain.
fn push_opt_blobs(out: &mut Vec<u8>, l: &Option<Vec<Vec<u8>>>)
    ensures
        final(out)@ == old(out)@ + enc_opt_blobs(l),
{
    match l {
        Some(t) => {
            push_bool(out, true);
            push_u64(out, t.len() as u64);
            let ghost base = out@;
            let mut i: usize = 0;
            while i < t.len()
                invariant
                    i <= t@.len(),
                    out@ == base + enc_blobs(blobs_view(t@).take(i as int)),
                decreases t@.len() - i,
            {
                push_bytes_blob(out, &t[i]);
                proof {
                    assert(blobs_view(t@).take(i as int).push(t@[i as int]@) =~= blobs_view(
                        t@,
                    ).take(i + 1));
                    lemma_enc_blobs_snoc(blobs_view(t@).take(i as int), t@[i as int]@);
                    assert(out@ =~= base + enc_blobs(blobs_view(t@).take(i + 1)));
                }
                i = i + 1;
            }
            proof {
                assert(blobs_view(t@).take(t@.len() as int) =~= blobs_view(t@));
                assert(out@ =~= old(out)@ + enc_opt_blobs(l));
            }
        },
        None => {
            push_bool(out, false);
        },
    }
}

/// Collect the issuers of a keyless identity list.
fn collect_keyless_issuers(l: &Vec<KeylessInfo>) -> (r: Vec<String>)
    ensures
        strs_view(r@) == keyless_issuers(l@),
{
    let mut out: Vec<String> = Vec::new();
    let mut i: usize = 0;
    while i < l.len()
        invariant
            i <= l@.len(),
            out@.len() == i,
            forall|j: int| 0 <= j < i ==> out@[j]@ == l@[j].issuer@,
        decreases l@.len() - i,
    {
        out.push(l[i].issuer.clone());
        i = i + 1;
    }
    proof {
        assert(strs_view(out@) =~= keyless_issuers(l@));
    }
    out
}

/// Collect the subjects of a keyless identity list.
fn collect_keyless_subjects(l: &Vec<KeylessInfo>) -> (r: Vec<String>)
    ensures
        strs_view(r@) == keyless_subjects(l@),
{
    let mut out: Vec<String> = Vec::new();
    let mut i: usize = 0;
    while i < l.len()
        invariant
            i <= l@.len(),
            out@.len() == i,
            forall|j: int| 0 <= j < i ==> out@[j]@ == l@[j].subject@,
        decreases l@.len() - i,
    {
        out.push(l[i].subject.clone());
        i = i + 1;
    }
    proof {
        assert(strs_view(out@) =~= keyless_subjects(l@));
    }
    out
}

/// Collect the issuers of a keyless-prefix identity list.
fn collect_prefix_issuers(l: &Vec<KeylessPrefixInfo>) -> (r: Vec<String>)
    ensures
        strs_view(r@) == prefix_issuers(l@),
{
    let mut out: Vec<String> = Vec::new();
    let mut i: usize = 0;
    while i < l.len()
        invariant
            i <= l@.len(),
            out@.len() == i,
            forall|j: int| 0 <= j < i ==> out@[j]@ == l@[j].issuer@,
        decreases l@.len() - i,
    {
        out.push(l[i].issuer.clone());
        i = i + 1;
    }
    proof {
        assert(strs_view(out@) =~= prefix_issuers(l@));
    }
    out
}

/// Collect the URL prefixes of a keyless-prefix identity list.
fn collect_prefix_urls(l: &Vec<KeylessPrefixInfo>) -> (r: Vec<String>)
    ensures
        strs_view(r@) == prefix_urls(l@),
{
    let mut out: Vec<String> = Vec::new();
    let mut i: usize = 0;
    while i < l.len()
        invariant
            i <= l@.len(),
            out@.len() == i,
            forall|j: int| 0 <= j < i ==> out@[j]@ == l@[j].url_prefix@,
        decreases l@.len() - i,
    {
        out.push(l[i].url_prefix.clone());
        i = i + 1;
    }
    proof {
        assert(strs_view(out@) =~= prefix_urls(l@));
    }
    out
}

/// Compute the request's deterministic fingerprint.
pub fn fingerprint(req: &CapabilityRequestType) -> (r: Vec<u8>)
    ensures
        r@ == spec_fingerprint(req),
{
    let mut out: Vec<u8> = Vec::new();
    match req {
        CapabilityRequestType::OciManifestDigest { image } => {
            out.push(1);
            push_str_bytes(&mut out, image);
            proof {
                assert(out@ =~= spec_fingerprint(req));
            }
        },
        CapabilityRequestType::OciManifest { image } => {
            out.push(2);
            push_str_bytes(&mut out, image);
            proof {
                assert(out@ =~= spec_fingerprint(req));
            }
        },
        CapabilityRequestType::OciManifestAndConfig { image } => {
            out.push(3);
            push_str_bytes(&mut out, image);
            proof {
                assert(out@ =~= spec_fingerprint(req));
            }
        },
        CapabilityRequestType::SigstorePubKeyVerify { image, pub_keys, annotations } => {
            out.push(4);
            push_str_bytes(&mut out, image);
            push_str_list(&mut out, pub_keys);
            push_opt_str_list(&mut out, annotations);
            proof {
                assert(out@ =~= spec_fingerprint(req));
            }
        },
        CapabilityRequestType::SigstoreKeylessVerify { image, keyless, annotations } => {
            out.push(5);
            push_str_bytes(&mut out, image);
            let issuers = collect_keyless_issuers(keyless);
            push_str_list(&mut out, &issuers);
            let subjects = collect_keyless_subjects(keyless);
            push_str_list(&mut out, &subjects);
            push_opt_str_list(&mut out, annotations);
            proof {
                assert(out@ =~= spec_fingerprint(req));
            }
        },
        CapabilityRequestType::SigstoreKeylessPrefixVerify {
            image,
            keyless_prefix,
            annotations,
        } => {
            out.push(6);
            push_str_bytes(&mut out, image);
            let issuers = collect_prefix_issuers(keyless_prefix);
            push_str_list(&mut out, &issuers);
            let urls = collect_prefix_urls(keyless_prefix);
            push_str_list(&mut out, &urls);
            push_opt_str_list(&mut out, annotations);
            proof {
                assert(out@ =~= spec_fingerprint(req));
            }
        },
        CapabilityRequestType::SigstoreGithubActionsVerify {
            image,
            owner,
            repo,
            annotations,
        } => {
            out.push(7);
            push_str_bytes(&mut out, image);
            push_str_bytes(&mut out, owner);
            push_opt_str(&mut out, repo);
            push_opt_str_list(&mut out, annotations);
            proof {
                assert(out@ =~= spec_fingerprint(req));
            }
        },
        CapabilityRequestType::SigstoreCertificateVerify {
            image,
            certificate,
            certificate_chain,
            require_rekor_bundle,
            annotations,
        } => {
            out.push(8);
            push_str_bytes(&mut out, image);
            push_bytes_blob(&mut out, certificate);
            push_opt_blobs(&mut out, certificate_chain);
            push_bool(&mut out, *require_rekor_bundle);
            push_opt_str_list(&mut out, annotations);
            proof {
                assert(out@ =~= spec_fingerprint(req));
            }
        },
        CapabilityRequestType::DNSLookupHost { host } => {
            out.push(9);
            push_str_bytes(&mut out, host);
            proof {
                assert(out@ =~= spec_fingerprint(req));
            }
        },
        CapabilityRequestType::KubernetesListResourceNamespace {
            api_version,
            kind,
            namespace,
            label_selector,
            field_selector,
        } => {
            out.push(10);
            push_str_bytes(&mut out, api_version);
            push_str_bytes(&mut out, kind);
            push_str_bytes(&mut out, namespace);
            push_opt_str(&mut out, label_selector);
            push_opt_str(&mut out, field_selector);
            proof {
                assert(out@ =~= spec_fingerprint(req));
            }
        },
        CapabilityRequestType::KubernetesListResourceAll {
            api_version,
            kind,
            label_selector,
            field_selector,
        } => {
            out.push(11);
            push_str_bytes(&mut out, api_version);
            push_str_bytes(&mut out, kind);
            push_opt_str(&mut out, label_selector);
            push_opt_str(&mut out, field_selector);
            proof {
                assert(out@ =~= spec_fingerprint(req));
            }
        },
        CapabilityRequestType::KubernetesGetResource {
            api_version,
            kind,
            name,
            namespace,
            ..
        } => {
            out.push(12);
            push_str_bytes(&mut out, api_version);
            push_str_bytes(&mut out, kind);
            push_str_bytes(&mut out, name);
            push_opt_str(&mut out, namespace);
            proof {
                assert(out@ =~= spec_fingerprint(req));
            }
        },
        CapabilityRequestType::KubernetesGetResourcePluralName { api_version, kind } => {
            out.push(13);
            push_str_bytes(&mut out, api_version);
            push_str_bytes(&mut out, kind);
            proof {
                assert(out@ =~= spec_fingerprint(req));
            }
        },
        CapabilityRequestType::HasKubernetesListResourceAllResultChangedSinceInstant {
            api_version,
            kind,
            label_selector,
            field_selector,
            since_epoch_seconds,
        } => {
            out.push(14);
            push_str_bytes(&mut out, api_version);
            push_str_bytes(&mut out, kind);
            push_opt_str(&mut out, label_selector);
            push_opt_str(&mut out, field_selector);
            push_u64(&mut out, *since_epoch_seconds);
            proof {
                assert(out@ =~= spec_fingerprint(req));
            }
        },
        CapabilityRequestType::KubernetesCanI { request, .. } => {
            out.push(15);
            push_bytes_blob(&mut out, request);
            proof {
                assert(out@ =~= spec_fingerprint(req));
            }
        },
    }
    out
}

/// What the handler decides to do with one capability request.
pub enum DispatchAction {
    /// Answer at once, without any outbound call. The flag is the
    /// `was_cached` observability bit.
    ReplyNow(Result<CallbackResponse, CapabilityError>, bool),
    /// Invoke the provider; `coalesce` carries the in-flight fingerprint
    /// the outcome must be settled under, or nothing for cache-bypassing
    /// requests.
    Invoke { coalesce: Option<Vec<u8>> },
    /// Attach to the producer already in flight for this fingerprint and
    /// take its result, marked as cached.
    Await(Vec<u8>),
}

/// Decide one capability request against the cache and the configured
/// clients. A Kubernetes capability without a configured client is
/// answered at once with `NotConfigured` and never reaches a provider.
/// A cache-bypassing request is always invoked, coalesces with nothing,
/// and leaves the cache untouched. Any other request is answered from its
/// fingerprint's slot: a hit replies at once as cached, an in-flight
/// producer is awaited, and an empty slot makes this caller the leader —
/// so concurrent requests with one fingerprint cause one invocation.
pub fn plan_dispatch(
    req: &CapabilityRequestType,
    kubernetes_configured: bool,
    cache: &mut CapabilityCache,
) -> (r: DispatchAction)
    requires
        old(cache).wf(),
    ensures
        final(cache).wf(),
        ({
            if req.spec_needs_kubernetes() && !kubernetes_configured {
                &&& r matches DispatchAction::ReplyNow(result, was_cached) && result == Err::<
                    CallbackResponse,
                    CapabilityError,
                >(CapabilityError::NotConfigured) && was_cached == false
                &&& *final(cache) == *old(cache)
            } else if req.spec_bypasses_cache() {
                &&& r matches DispatchAction::Invoke { coalesce } && coalesce is None
                &&& *final(cache) == *old(cache)
            } else {
                match old(cache).slot(spec_fingerprint(req)) {
                    Some(SlotView::Done(p)) => r matches DispatchAction::ReplyNow(result, was_cached)
                        && result matches Ok(resp) && resp.payload@ == p && was_cached == true
                        && *final(cache) == *old(cache),
                    Some(SlotView::InFlight) => r matches DispatchAction::Await(k) && k@
                        == spec_fingerprint(req) && *final(cache) == *old(cache),
                    None => r matches DispatchAction::Invoke { coalesce } && coalesce matches Some(
                        k,
                    ) && k@ == spec_fingerprint(req) && final(cache).slot(spec_fingerprint(req))
                        == Some(SlotView::InFlight) && (forall|k2: Seq<u8>|
                        k2 != spec_fingerprint(req) ==> final(cache).slot(k2) == old(cache).slot(
                            k2,
                        )),
                }
            }
        }),
{
    if req.needs_kubernetes() && !kubernetes_configured {
        return DispatchAction::ReplyNow(Err(CapabilityError::NotConfigured), false);
    }
    if req.bypasses_cache() {
        return DispatchAction::Invoke { coalesce: None };
    }
    let fp = fingerprint(req);
    match cache.begin(&fp) {
        CacheDecision::Hit(p) => DispatchAction::ReplyNow(Ok(CallbackResponse { payload: p }), true),
        CacheDecision::Attached => DispatchAction::Await(fp),
        CacheDecision::Leader => DispatchAction::Invoke { coalesce: Some(fp) },
    }
}

/// Settle a provider outcome after an `Invoke`: install a success under
/// its fingerprint, drop the in-flight record on failure so the next
/// caller retries, and touch nothing at all for a cache-bypassing
/// request. The outcome itself is returned unchanged, marked as fresh.
pub fn settle_invoke(
    cache: &mut CapabilityCache,
    coalesce: Option<Vec<u8>>,
    outcome: Result<Vec<u8>, CapabilityError>,
) -> (r: (Result<CallbackResponse, CapabilityError>, bool))
    requires
        old(cache).wf(),
        coalesce matches Some(k) ==> old(cache).slot(k@) == Some(SlotView::InFlight),
    ensures
        final(cache).wf(),
        r.1 == false,
        match outcome {
            Ok(p) => r.0 matches Ok(resp) && resp.payload@ == p@,
            Err(e) => r.0 == Err::<CallbackResponse, CapabilityError>(e),
        },
        match coalesce {
            None => *final(cache) == *old(cache),
            Some(k) => {
                &&& (outcome matches Ok(p) ==> final(cache).slot(k@) == Some(
                    SlotView::Done(p@),
                ))
                &&& (outcome is Err ==> final(cache).slot(k@) is None)
                &&& forall|k2: Seq<u8>| k2 != k@ ==> final(cache).slot(k2) == old(cache).slot(k2)
            },
        },
{
    match coalesce {
        None => {
            match outcome {
                Ok(p) => (Ok(CallbackResponse { payload: p }), false),
                Err(e) => (Err(e), false),
            }
        },
        Some(k) => {
            match outcome {
                Ok(p) => {
                    let out = p.clone();
                    proof {
                        assert(out@ =~= p@);
                    }
                    cache.complete(&k, p);
                    (Ok(CallbackResponse { payload: out }), false)
                },
                Err(e) => {
                    cache.fail(&k);
                    (Err(e), false)
                },
            }
        },
    }
}

/// Deliver the one reply a dispatched capability request gets.
pub fn deliver_reply(
    req: &mut CallbackRequest,
    result: Result<CallbackResponse, CapabilityError>,
)
    requires
        !old(req).reply.is_written(),
    ensures
        final(req).reply.contents() == Some(result),
{
    req.reply.send(result);
}

/// The callback handler's run state.
pub enum HandlerState {
    /// Accepting requests.
    Running,
    /// Shut down: no request is accepted any more.
    Terminated,
}

/// What the handler's select saw on one iteration.
pub enum HandlerEvent {
    /// The shutdown signal fired.
    Shutdown,
    /// A request arrived on the inbox.
    RequestArrived,
    /// The inbox was empty and open; nothing to do this round.
    Nothing,
}

/// What the handler does on one iteration.
pub enum HandlerAction {
    /// Leave the loop without draining the inbox.
    Exit,
    /// Dispatch the request that arrived onto a detached task.
    Dispatch,
    /// Loop again.
    Idle,
}

/// One iteration of the handler's main loop. The shutdown signal is
/// checked before the inbox, so the iteration after the signal always
/// exits, whatever sits in the inbox; a terminated handler accepts
/// nothing. Only an iteration that saw a request dispatches one.
pub fn handler_step(state: HandlerState, event: HandlerEvent) -> (r: (HandlerState, HandlerAction))
    ensures
        state is Terminated ==> r == (HandlerState::Terminated, HandlerAction::Exit),
        state is Running && event is Shutdown ==> r == (
            HandlerState::Terminated,
            HandlerAction::Exit,
        ),
        state is Running && event is RequestArrived ==> r == (
            HandlerState::Running,
            HandlerAction::Dispatch,
        ),
        state is Running && event is Nothing ==> r == (HandlerState::Running, HandlerAction::Idle),
{
    match state {
        HandlerState::Terminated => (HandlerState::Terminated, HandlerAction::Exit),
        HandlerState::Running => match event {
            HandlerEvent::Shutdown => (HandlerState::Terminated, HandlerAction::Exit),
            HandlerEvent::RequestArrived => (HandlerState::Running, HandlerAction::Dispatch),
            HandlerEvent::Nothing => (HandlerState::Running, HandlerAction::Idle),
        },
    }
}

/// Relies on dns_lookup::lookup_host: resolves a hostname through the
/// system resolver into addresses, rendered as strings. The outcome
/// depends on the network and resolver state, so nothing is promised of
/// it.
#[verifier::external_body]
fn lookup_host_raw(host: &str) -> Result<Vec<String>, String> {
    match dns_lookup::lookup_host(host) {
        Ok(ips) => Ok(ips.iter().map(|ip| ip.to_string()).collect()),
        Err(e) => Err(format!("{e}")),
    }
}

/// Serialise a DNS lookup result into its reply payload.
pub fn dns_response_payload(ips: Vec<String>) -> (r: CallbackResponse)
    ensures
        r.payload@ == spec_encode_response(ResponseValueView::Lookup(strs_view(ips@))),
{
    CallbackResponse { payload: encode_response(&ResponseValue::Lookup(ips)) }
}

/// Serve a DNS host lookup: resolve the host and serialise whatever came
/// back. Whatever the resolver answers, a success is always the encoding
/// of some address list, and a failure surfaces as an outbound error.
pub fn handle_dns_lookup(host: &String) -> (r: Result<CallbackResponse, CapabilityError>)
    ensures
        match r {
            Ok(resp) => exists|ips: Seq<Seq<char>>|
                resp.payload@ == spec_encode_response(ResponseValueView::Lookup(ips)),
            Err(e) => e is Outbound,
        },
{
    match lookup_host_raw(host.as_str()) {
        Ok(ips) => {
            let ghost witness = strs_view(ips@);
            let resp = dns_response_payload(ips);
            proof {
                assert(resp.payload@ == spec_encode_response(ResponseValueView::Lookup(witness)));
            }
            Ok(resp)
        },
        Err(m) => Err(CapabilityError::Outbound(m)),
    }
}

/// What a certificate verification against a transparency-log requirement
/// comes to: a signature lacking a log bundle fails the check whenever the
/// bundle is required, and only then.
pub fn certificate_verification_outcome(
    verified: bool,
    has_rekor_bundle: bool,
    require_rekor_bundle: bool,
) -> (r: Result<(), CapabilityError>)
    ensures
        r is Ok <==> verified && (has_rekor_bundle || !require_rekor_bundle),
        r matches Err(e) ==> e is NotSatisfied,
{
    if !verified {
        Err(CapabilityError::NotSatisfied("certificate verification failed".to_owned()))
    } else if require_rekor_bundle && !has_rekor_bundle {
        Err(
            CapabilityError::NotSatisfied(
                "rekor bundle required but not present in signature".to_owned(),
            ),
        )
    } else {
        Ok(())
    }
}

} // verus!
