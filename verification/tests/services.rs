use atp_tools::client::{did_document_url, pds_endpoint, xrpc_url, ClientError, DidDocument, DidDocumentService, ServiceUrls};
use atp_tools::config::ServiceConfig;
use atp_tools::parallel::{ParallelConfig, ParallelResults};

#[test]
fn parses_service_urls() {
    let urls = ServiceUrls::new(&ServiceConfig::default()).expect("defaults parse");
    assert_eq!(urls.public_api_base, "https://public.api.bsky.app/");
    assert_eq!(
        xrpc_url(&urls.public_api_base, "app.bsky.actor.getProfile").unwrap(),
        "https://public.api.bsky.app/xrpc/app.bsky.actor.getProfile"
    );
    let bad = ServiceConfig { public_api_base: "not a url".to_string(), plc_directory_base: "https://plc.directory".to_string() };
    match ServiceUrls::new(&bad) {
        Err(ClientError::Url { field, value, .. }) => {
            assert_eq!(field, "public_api_base");
            assert_eq!(value, "not a url");
        }
        other => panic!("unexpected {other:?}"),
    }
}

#[test]
fn locates_did_documents() {
    assert_eq!(did_document_url("https://plc.directory/", "did:plc:abc").unwrap(), "https://plc.directory/did:plc:abc");
    assert_eq!(
        did_document_url("https://plc.directory/", "did:web:example.com").unwrap(),
        "https://example.com/.well-known/did.json"
    );
    assert_eq!(
        did_document_url("https://plc.directory/", "did:web:example.com:user:alice").unwrap(),
        "https://example.com/user/alice/did.json"
    );
    match did_document_url("https://plc.directory/", "did:key:z6Mk") {
        Err(ClientError::UnsupportedDid(did)) => assert_eq!(did, "did:key:z6Mk"),
        other => panic!("unexpected {other:?}"),
    }
}

#[test]
fn finds_the_data_server() {
    let doc = DidDocument {
        id: "did:plc:abc".to_string(),
        service: vec![
            DidDocumentService { id: "#other".to_string(), kind: "Other".to_string(), service_endpoint: "https://o.test".to_string() },
            DidDocumentService {
                id: "#atproto_pds".to_string(),
                kind: "AtprotoPersonalDataServer".to_string(),
                service_endpoint: "https://pds.test".to_string(),
            },
        ],
        extra: vec![],
    };
    assert_eq!(pds_endpoint(&doc).unwrap(), "https://pds.test/");
    let none = DidDocument { id: "did:plc:x".to_string(), service: vec![], extra: vec![] };
    let error = pds_endpoint(&none).unwrap_err();
    assert_eq!(error.message(), "DID document for did:plc:x does not advertise an AtprotoPersonalDataServer service");
}

#[test]
fn keeps_parallel_results_in_input_order() {
    let config = ParallelConfig::default();
    assert_eq!((config.max_parallel, config.start_delay_ms), (8, 50));
    assert!(!config.waits_before(0) && config.waits_before(1));
    assert!(config.must_collect(8) && !config.must_collect(7));
    assert!(!ParallelConfig { max_parallel: 0, start_delay_ms: 0 }.is_valid());
    let mut results = ParallelResults::new(3);
    results.record(2, "c");
    results.record(0, "a");
    assert_eq!(results.completed(), 2);
    results.record(1, "b");
    assert_eq!(results.into_results(), Some(vec!["a", "b", "c"]));
    let partial: ParallelResults<u8> = ParallelResults::new(1);
    assert_eq!(partial.into_results(), None);
}
