use policy_server::cache::{get_or_compute_sync, CacheDecision, CapabilityCache};
use policy_server::callback::{
    certificate_verification_outcome, deliver_reply, fingerprint, handle_dns_lookup, handler_step,
    plan_dispatch, settle_invoke, CallbackRequest, CallbackResponse, CapabilityRequestType,
    DispatchAction, HandlerAction, HandlerEvent, HandlerState,
};
use policy_server::codec::{decode_response, encode_response, read_u64, ResponseValue};
use policy_server::errors::{BootstrapError, CapabilityError};
use policy_server::fetcher::{
    file_name_of_path, initial_attempt, module_destination, next_attempt_after_failure,
    parse_wasm_url, FetchAttempt, HostTrust, ModuleSource,
};
use policy_server::group::{evaluate_group, GroupExpr};
use policy_server::pool::{dispatch_round_robin, first_failure, settle_bootstrap, validate_pool_size, WorkerPoolBootRequest};
use policy_server::reply::ReplySlot;
use policy_server::verdict::Verdict;
use policy_server::worker::{apply_time_budget, EvalRequest, Worker};
use policy_server::policies::{Policy, PolicyMode};

fn plain_policy(url: &str) -> Policy {
    Policy {
        url: url.to_string(),
        wasm_module_path: "/tmp/module.wasm".to_string(),
        policy_mode: PolicyMode::Protect,
        allowed_to_mutate: false,
        settings: None,
        context_aware_resources: Vec::new(),
    }
}

fn eval_request(policy_id: &str) -> EvalRequest {
    EvalRequest {
        policy_id: policy_id.to_string(),
        body: b"{}".to_vec(),
        reply: ReplySlot::new(),
    }
}

// Reply slots are single-use: dropping one unwritten is observable.

#[test]
fn reply_slot_written_once_then_received() {
    let mut slot: ReplySlot<u32> = ReplySlot::new();
    slot.send(7);
    assert_eq!(slot.receive(), Ok(7));
}

#[test]
fn reply_slot_dropped_without_write_is_closed() {
    let slot: ReplySlot<u32> = ReplySlot::new();
    assert!(slot.receive().is_err());
}

// Round-robin dispatch: fairness and partition.

#[test]
fn round_robin_fairness_over_seven_requests_three_workers() {
    let requests: Vec<EvalRequest> = (0..7).map(|i| eval_request(&format!("p{}", i))).collect();
    let inboxes = dispatch_round_robin(requests, 3);
    assert_eq!(inboxes.len(), 3);
    assert_eq!(inboxes[0].len(), 3);
    assert_eq!(inboxes[1].len(), 2);
    assert_eq!(inboxes[2].len(), 2);
    assert_eq!(inboxes[0][0].policy_id, "p0");
    assert_eq!(inboxes[1][0].policy_id, "p1");
    assert_eq!(inboxes[2][0].policy_id, "p2");
    assert_eq!(inboxes[0][1].policy_id, "p3");
}

#[test]
fn round_robin_single_worker_takes_everything() {
    let requests: Vec<EvalRequest> = (0..4).map(|i| eval_request(&format!("p{}", i))).collect();
    let inboxes = dispatch_round_robin(requests, 1);
    assert_eq!(inboxes.len(), 1);
    assert_eq!(inboxes[0].len(), 4);
}

// Pool bootstrap.

#[test]
fn pool_size_zero_is_config_invalid() {
    let r = validate_pool_size(0);
    assert!(matches!(r, Err(BootstrapError::ConfigInvalid(_))));
    assert!(validate_pool_size(2).is_ok());
}

#[test]
fn bootstrap_reply_reports_config_invalid_for_empty_pool() {
    let mut boot = WorkerPoolBootRequest {
        policies: Vec::new(),
        pool_size: 0,
        reply: ReplySlot::new(),
    };
    settle_bootstrap(&mut boot, Vec::new(), false);
    let outcome = boot.reply.receive().unwrap();
    assert!(matches!(outcome, Err(BootstrapError::ConfigInvalid(_))));
}

#[test]
fn bootstrap_reports_first_worker_failure() {
    let results: Vec<Result<(), BootstrapError>> = vec![
        Ok(()),
        Err(BootstrapError::EvaluatorInitFailed("bad module".to_string())),
        Err(BootstrapError::FetchFailed("later".to_string())),
    ];
    assert_eq!(first_failure(&results), Some(1));
    let mut boot = WorkerPoolBootRequest {
        policies: Vec::new(),
        pool_size: 2,
        reply: ReplySlot::new(),
    };
    settle_bootstrap(&mut boot, results, false);
    let outcome = boot.reply.receive().unwrap();
    assert!(matches!(outcome, Err(BootstrapError::EvaluatorInitFailed(_))));
}

#[test]
fn bootstrap_continues_on_errors_when_asked() {
    let results: Vec<Result<(), BootstrapError>> =
        vec![Err(BootstrapError::FetchFailed("gone".to_string()))];
    let mut boot = WorkerPoolBootRequest {
        policies: Vec::new(),
        pool_size: 1,
        reply: ReplySlot::new(),
    };
    settle_bootstrap(&mut boot, results, true);
    assert_eq!(boot.reply.receive().unwrap(), Ok(()));
}

// Workers: evaluator maps and replies.

#[test]
fn zero_policy_worker_answers_unknown_policy() {
    let worker = Worker::new(&Vec::new());
    assert!(worker.find_evaluator(&"pod-privileged".to_string()).is_none());
    let mut req = eval_request("pod-privileged");
    worker.settle_evaluation(&mut req, None, None, 0);
    assert_eq!(req.reply.receive().unwrap(), None);
}

#[test]
fn worker_builds_one_evaluator_per_policy() {
    let policies = vec![
        ("pod-privileged".to_string(), plain_policy("registry://host/pod:v1")),
        ("raw-mutation".to_string(), plain_policy("registry://host/raw:v1")),
    ];
    let worker = Worker::new(&policies);
    assert_eq!(worker.evaluators.len(), 2);
    assert_eq!(worker.find_evaluator(&"raw-mutation".to_string()), Some(1));
    assert_eq!(worker.find_evaluator(&"absent".to_string()), None);
}

#[test]
fn hosted_policy_reply_carries_the_verdict() {
    let policies = vec![("pod-privileged".to_string(), plain_policy("registry://h/p:v1"))];
    let worker = Worker::new(&policies);
    let mut req = eval_request("pod-privileged");
    worker.settle_evaluation(
        &mut req,
        Some(Verdict::Reject("privileged containers are not allowed".to_string())),
        Some(2),
        0,
    );
    match req.reply.receive().unwrap() {
        Some(Verdict::Reject(msg)) => assert!(!msg.is_empty()),
        other => panic!("unexpected reply: {:?}", other),
    }
}

#[test]
fn mutation_patch_is_not_lost() {
    let policies = vec![("raw-mutation".to_string(), plain_policy("registry://h/m:v1"))];
    let worker = Worker::new(&policies);
    let mut req = eval_request("raw-mutation");
    let patch = b"{\"replace\":\"hay\"}".to_vec();
    worker.settle_evaluation(&mut req, Some(Verdict::AllowWithMutation(patch.clone())), None, 0);
    assert_eq!(req.reply.receive().unwrap(), Some(Verdict::AllowWithMutation(patch)));
}

#[test]
fn inbox_is_served_in_order_with_one_reply_each() {
    let policies = vec![("pod-privileged".to_string(), plain_policy("registry://h/p:v1"))];
    let worker = Worker::new(&policies);
    let inbox = vec![eval_request("pod-privileged"), eval_request("unknown")];
    let outcomes = vec![(Some(Verdict::Allow), 0u64), (None, 0u64)];
    let served = worker.run_inbox(inbox, outcomes, Some(2));
    assert_eq!(served.len(), 2);
    let mut replies = Vec::new();
    for req in served {
        replies.push(req.reply.receive().unwrap());
    }
    assert_eq!(replies, vec![Some(Verdict::Allow), None]);
}

// The evaluation time budget.

#[test]
fn zero_second_budget_always_times_out() {
    let r = apply_time_budget(Verdict::Allow, Some(0), 0);
    assert_eq!(r, Verdict::Reject("policy evaluation timed out".to_string()));
}

#[test]
fn verdicts_know_whether_they_admit() {
    assert!(Verdict::Allow.allowed());
    assert!(Verdict::AllowWithMutation(b"patch".to_vec()).allowed());
    assert!(!Verdict::Reject("no".to_string()).allowed());
}

#[test]
fn budget_allows_fast_and_rejects_slow_evaluations() {
    assert_eq!(apply_time_budget(Verdict::Allow, Some(2), 0), Verdict::Allow);
    assert_eq!(
        apply_time_budget(Verdict::Allow, Some(2), 5),
        Verdict::Reject("policy evaluation timed out".to_string())
    );
    assert_eq!(apply_time_budget(Verdict::Allow, None, 1000), Verdict::Allow);
}

// The capability cache.

#[test]
fn second_begin_with_same_fingerprint_attaches() {
    let mut cache = CapabilityCache::new();
    let key = b"fingerprint".to_vec();
    assert!(matches!(cache.begin(&key), CacheDecision::Leader));
    assert!(matches!(cache.begin(&key), CacheDecision::Attached));
}

#[test]
fn sequential_cached_calls_observe_identical_bytes() {
    let mut cache = CapabilityCache::new();
    let key = b"digest:image".to_vec();
    let payload = b"sha256:abcd".to_vec();
    let (first, first_cached) = get_or_compute_sync(&mut cache, &key, Ok(payload.clone()));
    let (second, second_cached) = get_or_compute_sync(&mut cache, &key, Ok(b"other".to_vec()));
    assert_eq!(first.unwrap(), payload);
    assert_eq!(second.unwrap(), payload);
    assert_eq!((first_cached, second_cached), (false, true));
}

#[test]
fn lookup_sees_only_installed_payloads() {
    let mut cache = CapabilityCache::new();
    let key = b"fp".to_vec();
    assert!(cache.lookup(&key).is_none());
    assert!(matches!(cache.begin(&key), CacheDecision::Leader));
    assert!(cache.lookup(&key).is_none());
    cache.complete(&key, b"payload".to_vec());
    assert_eq!(cache.lookup(&key), Some(b"payload".to_vec()));
}

#[test]
fn failed_producer_installs_nothing() {
    let mut cache = CapabilityCache::new();
    let key = b"k".to_vec();
    let (first, cached) =
        get_or_compute_sync(&mut cache, &key, Err(CapabilityError::Outbound("down".to_string())));
    assert!(first.is_err());
    assert!(!cached);
    // the next caller retries and can succeed
    let (second, cached2) = get_or_compute_sync(&mut cache, &key, Ok(b"v".to_vec()));
    assert_eq!(second.unwrap(), b"v".to_vec());
    assert!(!cached2);
}

// Dispatch planning: caching, coalescence, bypasses, Kubernetes routing.

fn digest_request() -> CapabilityRequestType {
    CapabilityRequestType::OciManifestDigest {
        image: "ghcr.io/kubewarden/tests/pod-privileged:v0.2.1".to_string(),
    }
}

#[test]
fn concurrent_digest_requests_cause_one_invocation() {
    let mut cache = CapabilityCache::new();
    let req = digest_request();
    let first = plan_dispatch(&req, false, &mut cache);
    let key = match first {
        DispatchAction::Invoke { coalesce: Some(k) } => k,
        other => panic!("expected a leading invocation, got {:?}", names(&other)),
    };
    // a second identical request while the first is in flight coalesces
    match plan_dispatch(&digest_request(), false, &mut cache) {
        DispatchAction::Await(k) => assert_eq!(k, key),
        other => panic!("expected coalescence, got {:?}", names(&other)),
    }
    // the provider returns once; the outcome is installed
    let (settled, was_cached) = settle_invoke(&mut cache, Some(key), Ok(b"sha256:1234".to_vec()));
    assert_eq!(settled.unwrap().payload, b"sha256:1234".to_vec());
    assert!(!was_cached);
    // a later identical request is served from the cache, marked cached
    match plan_dispatch(&digest_request(), false, &mut cache) {
        DispatchAction::ReplyNow(Ok(resp), was_cached) => {
            assert_eq!(resp.payload, b"sha256:1234".to_vec());
            assert!(was_cached);
        },
        other => panic!("expected a cached reply, got {:?}", names(&other)),
    }
}

fn names(a: &DispatchAction) -> &'static str {
    match a {
        DispatchAction::ReplyNow(_, _) => "ReplyNow",
        DispatchAction::Invoke { .. } => "Invoke",
        DispatchAction::Await(_) => "Await",
    }
}

#[test]
fn disable_cache_variants_bypass_the_cache() {
    let mut cache = CapabilityCache::new();
    let req = CapabilityRequestType::KubernetesGetResource {
        api_version: "v1".to_string(),
        kind: "Pod".to_string(),
        name: "web".to_string(),
        namespace: Some("default".to_string()),
        disable_cache: true,
    };
    match plan_dispatch(&req, true, &mut cache) {
        DispatchAction::Invoke { coalesce } => assert!(coalesce.is_none()),
        other => panic!("expected an uncached invocation, got {:?}", names(&other)),
    }
    assert!(cache.entries.is_empty());
    // settling an uncached outcome installs nothing either
    let (settled, _) = settle_invoke(&mut cache, None, Ok(b"doc".to_vec()));
    assert_eq!(settled.unwrap().payload, b"doc".to_vec());
    assert!(cache.entries.is_empty());
}

#[test]
fn dns_lookups_bypass_the_cache() {
    let mut cache = CapabilityCache::new();
    let req = CapabilityRequestType::DNSLookupHost { host: "example.com".to_string() };
    match plan_dispatch(&req, false, &mut cache) {
        DispatchAction::Invoke { coalesce } => assert!(coalesce.is_none()),
        other => panic!("expected an uncached invocation, got {:?}", names(&other)),
    }
    assert!(cache.entries.is_empty());
}

#[test]
fn kubernetes_capability_without_client_is_not_configured() {
    let mut cache = CapabilityCache::new();
    let req = CapabilityRequestType::KubernetesCanI { request: b"review".to_vec(), disable_cache: false };
    match plan_dispatch(&req, false, &mut cache) {
        DispatchAction::ReplyNow(Err(CapabilityError::NotConfigured), was_cached) => {
            assert!(!was_cached)
        },
        other => panic!("expected NotConfigured, got {:?}", names(&other)),
    }
    assert!(cache.entries.is_empty());
}

// A dispatched request and its single reply.

#[test]
fn dispatched_request_gets_exactly_one_reply() {
    let mut req = CallbackRequest::new(CapabilityRequestType::DNSLookupHost {
        host: "example.com".to_string(),
    });
    deliver_reply(&mut req, Ok(CallbackResponse { payload: b"reply".to_vec() }));
    let received = req.reply.receive().unwrap().unwrap();
    assert_eq!(received.payload, b"reply".to_vec());
}

// The handler's shutdown behaviour.

#[test]
fn shutdown_exits_before_pending_requests() {
    let (next, action) = handler_step(HandlerState::Running, HandlerEvent::Shutdown);
    assert!(matches!(next, HandlerState::Terminated));
    assert!(matches!(action, HandlerAction::Exit));
    // a terminated handler accepts nothing, whatever arrives
    let (next2, action2) = handler_step(next, HandlerEvent::RequestArrived);
    assert!(matches!(next2, HandlerState::Terminated));
    assert!(matches!(action2, HandlerAction::Exit));
    let (_, dispatch) = handler_step(HandlerState::Running, HandlerEvent::RequestArrived);
    assert!(matches!(dispatch, HandlerAction::Dispatch));
}

// The payload codec.

fn all_response_values() -> Vec<ResponseValue> {
    vec![
        ResponseValue::Digest("sha256:abcd".to_string()),
        ResponseValue::Manifest(b"{\"layers\":[]}".to_vec()),
        ResponseValue::ManifestAndConfig(b"manifest".to_vec(), b"config".to_vec()),
        ResponseValue::Verification {
            digest: "sha256:ef01".to_string(),
            claims: vec!["issuer=github".to_string(), "subject=kubewarden".to_string()],
        },
        ResponseValue::Lookup(vec!["93.184.216.34".to_string(), "::1".to_string()]),
        ResponseValue::Resource(b"{\"kind\":\"Pod\"}".to_vec()),
        ResponseValue::PluralName("pods".to_string()),
        ResponseValue::CanI(true),
        ResponseValue::HasChanged(false),
    ]
}

#[test]
fn every_response_type_round_trips() {
    for value in all_response_values() {
        let payload = encode_response(&value);
        let decoded = decode_response(&payload).expect("payload must decode");
        let reencoded = encode_response(&decoded);
        assert_eq!(reencoded, payload);
    }
}

#[test]
fn serialising_a_deserialised_payload_reproduces_it() {
    let payload = encode_response(&ResponseValue::PluralName("deployments".to_string()));
    let value = decode_response(&payload).unwrap();
    assert_eq!(encode_response(&value), payload);
    // and a corrupted payload does not decode
    let mut broken = payload.clone();
    broken[0] = 200;
    assert!(decode_response(&broken).is_none());
    let mut truncated = payload.clone();
    truncated.pop();
    assert!(decode_response(&truncated).is_none());
}

#[test]
fn length_prefixes_are_little_endian() {
    let payload = encode_response(&ResponseValue::Digest("ab".to_string()));
    // tag, then the character count as eight little-endian bytes
    assert_eq!(payload[0], 1);
    assert_eq!(&payload[1..9], &[2, 0, 0, 0, 0, 0, 0, 0]);
    // then each character as four little-endian scalar bytes
    assert_eq!(&payload[9..13], &[97, 0, 0, 0]);
    assert_eq!(&payload[13..17], &[98, 0, 0, 0]);
    assert_eq!(payload.len(), 17);
    assert_eq!(read_u64(&payload[1..9].to_vec(), 0), 2);
}

#[test]
fn fingerprints_are_deterministic_and_input_sensitive() {
    let a = fingerprint(&digest_request());
    let b = fingerprint(&digest_request());
    assert_eq!(a, b);
    let other = fingerprint(&CapabilityRequestType::OciManifestDigest {
        image: "ghcr.io/kubewarden/tests/other:v1".to_string(),
    });
    assert_ne!(a, other);
    // the variant tag is part of the fingerprint
    let manifest = fingerprint(&CapabilityRequestType::OciManifest {
        image: "ghcr.io/kubewarden/tests/pod-privileged:v0.2.1".to_string(),
    });
    assert_ne!(a, manifest);
    let simple = fingerprint(&CapabilityRequestType::OciManifestDigest { image: "a".to_string() });
    assert_eq!(simple, vec![1u8, 1, 0, 0, 0, 0, 0, 0, 0, 97, 0, 0, 0]);
}

// DNS resolution through the system resolver.

#[test]
fn dns_lookup_of_localhost_yields_an_address_list() {
    match handle_dns_lookup(&"localhost".to_string()) {
        Ok(resp) => match decode_response(&resp.payload) {
            Some(ResponseValue::Lookup(ips)) => assert!(!ips.is_empty()),
            other => panic!("payload must decode to a lookup, got {:?}", other.is_some()),
        },
        Err(CapabilityError::Outbound(msg)) => assert!(!msg.is_empty()),
        Err(other) => panic!("unexpected error kind: {:?}", other),
    }
}

// Certificate verification under the transparency-log requirement.

#[test]
fn missing_rekor_bundle_fails_when_required() {
    let r = certificate_verification_outcome(true, false, true);
    assert!(matches!(r, Err(CapabilityError::NotSatisfied(_))));
    assert!(certificate_verification_outcome(true, true, true).is_ok());
    assert!(certificate_verification_outcome(true, false, false).is_ok());
    assert!(certificate_verification_outcome(false, true, false).is_err());
}

// Module URL classification and the HTTPS trust ladder.

#[test]
fn file_urls_name_local_modules() {
    match parse_wasm_url(&"file:///tmp/namespace-validate-policy.wasm".to_string()) {
        Ok(ModuleSource::Local { path }) => {
            assert_eq!(path, "/tmp/namespace-validate-policy.wasm")
        },
        _ => panic!("expected a local module"),
    }
}

#[test]
fn url_schemes_select_the_fetcher() {
    assert!(matches!(
        parse_wasm_url(&"https://host.example/policies/pod.wasm".to_string()),
        Ok(ModuleSource::Https { .. })
    ));
    assert!(matches!(
        parse_wasm_url(&"registry://ghcr.io/kubewarden/tests/pod-privileged:v0.2.1".to_string()),
        Ok(ModuleSource::Registry { .. })
    ));
    assert!(matches!(
        parse_wasm_url(&"ftp://host/pod.wasm".to_string()),
        Err(BootstrapError::FetchFailed(_))
    ));
    assert!(matches!(
        parse_wasm_url(&"not a url at all".to_string()),
        Err(BootstrapError::FetchFailed(_))
    ));
}

#[test]
fn https_url_parts_are_extracted() {
    match parse_wasm_url(&"https://host.example/policies/pod.wasm".to_string()) {
        Ok(ModuleSource::Https { url }) => {
            assert_eq!(url.scheme, "https");
            assert_eq!(url.host.as_deref(), Some("host.example"));
            assert_eq!(url.path, "/policies/pod.wasm");
        },
        _ => panic!("expected an HTTPS module"),
    }
}

#[test]
fn module_file_name_is_the_path_suffix() {
    assert_eq!(file_name_of_path(&"/policies/pod.wasm".to_string()), "pod.wasm");
    assert_eq!(file_name_of_path(&"pod.wasm".to_string()), "pod.wasm");
    assert_eq!(file_name_of_path(&"/policies/".to_string()), "");
    assert_eq!(
        module_destination(&"/downloads".to_string(), &"/policies/pod.wasm".to_string()),
        "/downloads/pod.wasm"
    );
}

#[test]
fn trust_ladder_for_secure_hosts_stops_at_system_cas() {
    let trust = HostTrust { has_custom_certificate_authority: false, insecure: false };
    assert_eq!(initial_attempt(true, true, &trust), Ok(FetchAttempt::SystemCa));
    assert!(matches!(
        next_attempt_after_failure(FetchAttempt::SystemCa, &trust),
        Err(BootstrapError::FetchFailed(_))
    ));
}

#[test]
fn trust_ladder_for_insecure_hosts_falls_back_to_plain_http() {
    let trust = HostTrust { has_custom_certificate_authority: true, insecure: true };
    assert_eq!(initial_attempt(true, true, &trust), Ok(FetchAttempt::CustomCa));
    assert_eq!(
        next_attempt_after_failure(FetchAttempt::CustomCa, &trust),
        Ok(Some(FetchAttempt::SystemCa))
    );
    assert_eq!(
        next_attempt_after_failure(FetchAttempt::SystemCa, &trust),
        Ok(Some(FetchAttempt::NoTlsVerification))
    );
    assert_eq!(
        next_attempt_after_failure(FetchAttempt::NoTlsVerification, &trust),
        Ok(Some(FetchAttempt::PlainHttp))
    );
    assert_eq!(next_attempt_after_failure(FetchAttempt::PlainHttp, &trust), Ok(None));
}

#[test]
fn http_urls_skip_tls_entirely() {
    let trust = HostTrust { has_custom_certificate_authority: false, insecure: true };
    assert_eq!(initial_attempt(false, true, &trust), Ok(FetchAttempt::PlainHttp));
    assert!(matches!(
        initial_attempt(true, false, &trust),
        Err(BootstrapError::FetchFailed(_))
    ));
}

// Policy groups.

#[test]
fn group_expression_rejects_with_the_configured_message() {
    let expression = GroupExpr::And(
        Box::new(GroupExpr::MemberCall("pod_privileged".to_string())),
        Box::new(GroupExpr::Lit(true)),
    );
    let message = "The group policy rejected your request".to_string();
    // the member evaluated the privileged pod and denied it
    let results = vec![("pod_privileged".to_string(), false)];
    let verdict = evaluate_group(&expression, &message, &results);
    assert_eq!(verdict, Verdict::Reject(message.clone()));
    // an allowing member makes the group allow
    let results = vec![("pod_privileged".to_string(), true)];
    assert_eq!(evaluate_group(&expression, &message, &results), Verdict::Allow);
}

#[test]
fn group_expression_with_unknown_member_rejects() {
    let expression = GroupExpr::Or(
        Box::new(GroupExpr::MemberCall("missing".to_string())),
        Box::new(GroupExpr::Lit(false)),
    );
    let verdict = evaluate_group(&expression, &"msg".to_string(), &Vec::new());
    assert_eq!(
        verdict,
        Verdict::Reject("group expression names an unknown member".to_string())
    );
    let negation = GroupExpr::Not(Box::new(GroupExpr::Lit(false)));
    assert_eq!(evaluate_group(&negation, &"msg".to_string(), &Vec::new()), Verdict::Allow);
}

// Error messages surfaced to the front door.

#[test]
fn capability_error_messages() {
    assert_eq!(
        CapabilityError::NotConfigured.message(),
        "Kubernetes client not configured"
    );
    assert_eq!(
        CapabilityError::NotSatisfied("not signed".to_string()).message(),
        "not signed"
    );
    assert_eq!(CapabilityError::SerializationFailed.message(), "error serializing payload");
}
