use aptos_core::cli::init::{
    endpoint_from, key_from, trim, AccountAction, CliConfig, CliError, EndpointKind, InitNext,
    InitStep, InitTool, KeyChoice, KeyDecision, ProfileConfig, ProfileOptions, DEFAULT_FAUCET_URL, DEFAULT_REST_URL, NUM_DEFAULT_COINS,
};
use aptos_core::consensus::dag_handler::{
    after_verification, response_of, rpc_outcome, same_bytes, DagMessageKind, NetworkHandler,
    RpcDecision, RpcReceiver, RpcStep, UnableToRespond,
};
use aptos_core::decimal::to_decimal;
use aptos_core::indexer::db_ops::{
    open_db, open_tailer_db, ColumnFamilies, TABLE_INFO_DB_NAME, TAILER_DB_NAME,
};
use aptos_core::indexer::indexer_reader::{
    IndexerQuery, IndexerReaders, ReaderRef, ReaderUnavailable,
};
use aptos_core::jwks::jwk::{
    JWKMoveStruct, JwkVariant, MoveAny, UnsupportedJWK, JWK, RSA_JWK, RSA_JWK_TYPE_NAME,
    UNSUPPORTED_JWK_TYPE_NAME,
};
use aptos_core::network::rpc_error::{join_error_text, PeerId, RpcError};
use aptos_core::testcases::network_bandwidth_test::{
    LoadDestination, NetworkBandwidthTest, BUFFER_BYTES, LIMIT_BYTES, RATE_MBPS,
};
use std::sync::Arc;

#[test]
fn decimal_notation_is_that_of_the_standard_library() {
    for n in [0u64, 1, 9, 10, 11, 99, 100, 101, 20971520, 10000, u32::MAX as u64, u64::MAX] {
        assert_eq!(to_decimal(n), n.to_string());
    }
}

#[test]
fn bandwidth_test_limits_the_group_named_after_the_rate() {
    let test = NetworkBandwidthTest;
    assert_eq!(test.name(), "network::bandwidth-test");
    let bandwidth = test.bandwidth();
    assert_eq!(bandwidth.name, format!("forge-namespace-{}mbps-bandwidth", RATE_MBPS));
    assert_eq!(bandwidth.name, "forge-namespace-100mbps-bandwidth");
    assert_eq!(bandwidth.rate, 100);
    assert_eq!(bandwidth.limit, 20971520);
    assert_eq!(bandwidth.buffer, 10000);
    let finish = test.finish();
    assert_eq!(finish.name, bandwidth.name);
    assert_eq!((finish.rate, finish.limit, finish.buffer), (RATE_MBPS, LIMIT_BYTES, BUFFER_BYTES));
}

#[test]
fn bandwidth_test_reports_its_limit_and_loads_the_full_nodes() {
    let setup = NetworkBandwidthTest.setup();
    assert_eq!(
        setup.report,
        format!(
            "Limited bandwidth to {}mbps with limit {} and buffer {} to namespace",
            RATE_MBPS, LIMIT_BYTES, BUFFER_BYTES
        )
    );
    assert_eq!(setup.destination, LoadDestination::FullnodesOtherwiseValidators);
    assert_eq!(setup.bandwidth.name, "forge-namespace-100mbps-bandwidth");
}

#[test]
fn readers_need_at_least_one_reader() {
    assert!(IndexerReaders::<u8, u16>::new(None, None).is_none());
    assert!(IndexerReaders::<u8, u16>::new(Some(Arc::new(1)), None).is_some());
    assert!(IndexerReaders::<u8, u16>::new(None, Some(Arc::new(2))).is_some());
    assert!(IndexerReaders::<u8, u16>::new(Some(Arc::new(1)), Some(Arc::new(2))).is_some());
}

#[test]
fn each_query_goes_to_its_reader() {
    let both = IndexerReaders::<u8, u16>::new(Some(Arc::new(1)), Some(Arc::new(2))).unwrap();
    assert!(matches!(both.reader_for(IndexerQuery::TableInfo), Ok(ReaderRef::TableInfo(r)) if **r == 1));
    for query in [
        IndexerQuery::Events,
        IndexerQuery::EventsByEventKey,
        IndexerQuery::AccountTransactions,
    ] {
        assert!(matches!(both.reader_for(query), Ok(ReaderRef::DbTailer(r)) if **r == 2));
    }

    let tailer_only = IndexerReaders::<u8, u16>::new(None, Some(Arc::new(2))).unwrap();
    assert!(matches!(
        tailer_only.reader_for(IndexerQuery::TableInfo),
        Err(ReaderUnavailable::TableInfo)
    ));
    assert!(tailer_only.reader_for(IndexerQuery::Events).is_ok());

    let table_only = IndexerReaders::<u8, u16>::new(Some(Arc::new(1)), None).unwrap();
    assert!(table_only.reader_for(IndexerQuery::TableInfo).is_ok());
    for query in [
        IndexerQuery::Events,
        IndexerQuery::EventsByEventKey,
        IndexerQuery::AccountTransactions,
    ] {
        assert!(matches!(table_only.reader_for(query), Err(ReaderUnavailable::DbTailer)));
    }
    assert_eq!(ReaderUnavailable::TableInfo.message(), "Table info reader is not available");
    assert_eq!(ReaderUnavailable::DbTailer.message(), "DB tailer reader is not available");
}

#[test]
fn databases_are_opened_under_their_names() {
    let plan = open_db();
    assert_eq!(plan.name, "index_async_v2_db");
    assert_eq!(plan.name, TABLE_INFO_DB_NAME);
    assert_eq!(plan.column_families, ColumnFamilies::TableInfo);
    assert!(!plan.read_only);
    let plan = open_tailer_db();
    assert_eq!(plan.name, "index_async_db_tailer_db");
    assert_eq!(plan.name, TAILER_DB_NAME);
    assert_eq!(plan.column_families, ColumnFamilies::Tailer);
    assert!(!plan.read_only);
}

fn rsa_key() -> RSA_JWK {
    RSA_JWK {
        kid: "kid".to_string(),
        kty: "RSA".to_string(),
        alg: "RS256".to_string(),
        e: "AQAB".to_string(),
        n: "13131".to_string(),
    }
}

#[test]
fn a_document_that_is_no_rsa_key_is_an_unsupported_key() {
    let unsupported = UnsupportedJWK { id: vec![1], payload: vec![2, 3] };
    assert_eq!(JWK::from_parsed(Some(rsa_key()), unsupported.clone()), JWK::RSA(rsa_key()));
    assert_eq!(JWK::from_parsed(None, unsupported.clone()), JWK::Unsupported(unsupported.clone()));
    assert_eq!(JWK::RSA(rsa_key()).variant(), JwkVariant::RSA);
    assert_eq!(JWK::Unsupported(unsupported).variant(), JwkVariant::Unsupported);
}

#[test]
fn a_packed_key_is_unpacked_by_the_name_of_its_type() {
    let packed = JWKMoveStruct::pack(JwkVariant::RSA, vec![1, 2, 3]);
    assert_eq!(packed.variant.type_tag, "0x1::jwks::RSA_JWK");
    assert_eq!(packed.variant.type_tag, RSA_JWK_TYPE_NAME);
    assert_eq!(packed.variant.data, vec![1, 2, 3]);
    assert_eq!(packed.variant_kind(), Ok(JwkVariant::RSA));

    let packed = JWKMoveStruct::pack(JwkVariant::Unsupported, vec![]);
    assert_eq!(packed.variant.type_tag, "0x1::jwks::UnsupportedJWK");
    assert_eq!(packed.variant.type_tag, UNSUPPORTED_JWK_TYPE_NAME);
    assert_eq!(packed.variant_kind(), Ok(JwkVariant::Unsupported));

    let unknown = JWKMoveStruct {
        variant: MoveAny { type_tag: "0x1::jwks::Other".to_string(), data: vec![] },
    };
    let error = unknown.variant_kind().unwrap_err();
    assert_eq!(
        error.message(),
        "convertion from jwk move struct to jwk failed with unknown variant"
    );
}

#[test]
fn requests_are_dropped_answered_or_dispatched() {
    type Handler = NetworkHandler<u8, u8, u8, u8, u8>;
    let me = [7u8; 32];
    let other = [8u8; 32];
    assert_eq!(Handler::process_rpc(Some(DagMessageKind::NodeMsg), None, &me), RpcDecision::DropUnexpected);
    assert_eq!(
        Handler::process_rpc(Some(DagMessageKind::NodeMsg), Some(&other), &me),
        RpcDecision::DropAuthorMismatch
    );
    assert_eq!(
        Handler::process_rpc(Some(DagMessageKind::Other), Some(&other), &me),
        RpcDecision::DropAuthorMismatch
    );
    assert_eq!(
        Handler::process_rpc(Some(DagMessageKind::NodeMsg), Some(&me), &me),
        RpcDecision::Dispatch(RpcReceiver::NodeReceiver)
    );
    assert_eq!(
        Handler::process_rpc(Some(DagMessageKind::CertifiedNodeMsg), Some(&me), &me),
        RpcDecision::Dispatch(RpcReceiver::DagDriver)
    );
    assert_eq!(
        Handler::process_rpc(Some(DagMessageKind::FetchRequest), Some(&me), &me),
        RpcDecision::Dispatch(RpcReceiver::FetchReceiver)
    );
    assert_eq!(
        Handler::process_rpc(Some(DagMessageKind::Other), Some(&me), &me),
        RpcDecision::AnswerUnknown
    );
    // A request that is no message is dropped before anything else is looked at.
    assert_eq!(Handler::process_rpc(None, Some(&me), &me), RpcDecision::DropUnreadable);
    assert_eq!(Handler::process_rpc(None, None, &me), RpcDecision::DropUnreadable);
    assert_eq!(Handler::process_rpc(None, Some(&other), &me), RpcDecision::DropUnreadable);
}

#[test]
fn decisions_that_are_errors_have_their_texts() {
    assert_eq!(RpcDecision::DropUnexpected.error_text(), Some("unexpected rpc message"));
    assert_eq!(
        RpcDecision::DropAuthorMismatch.error_text(),
        Some("message author and network author mismatch")
    );
    assert_eq!(RpcDecision::AnswerUnknown.error_text(), Some("unknown rpc message"));
    assert_eq!(RpcDecision::DropUnreadable.error_text(), None);
    assert_eq!(RpcDecision::Dispatch(RpcReceiver::DagDriver).error_text(), None);
    assert_eq!(UnableToRespond.message(), "unable to respond to rpc");
    assert!(RpcDecision::Dispatch(RpcReceiver::NodeReceiver).responds());
    assert!(RpcDecision::AnswerUnknown.responds());
    assert!(!RpcDecision::DropUnreadable.responds());
    assert!(!RpcDecision::DropUnexpected.responds());
    assert!(!RpcDecision::DropAuthorMismatch.responds());
}

#[test]
fn a_message_that_is_not_verified_reaches_no_receiver() {
    for receiver in [RpcReceiver::NodeReceiver, RpcReceiver::DagDriver, RpcReceiver::FetchReceiver] {
        assert_eq!(after_verification(receiver, true), RpcStep::Process(receiver));
        assert_eq!(after_verification(receiver, false), RpcStep::RespondError);
    }
}

#[test]
fn the_requester_gets_the_answer_or_an_error_of_the_application() {
    assert!(matches!(response_of(Ok(vec![1, 2, 3])), Ok(bytes) if bytes == vec![1, 2, 3]));
    assert!(matches!(response_of(Ok(vec![])), Ok(bytes) if bytes.is_empty()));
    assert!(matches!(
        response_of(Err(anyhow::Error::msg("bad signature"))),
        Err(RpcError::ApplicationError(e)) if e.to_string() == "bad signature"
    ));
    assert_eq!(rpc_outcome(true), Ok(()));
    assert_eq!(rpc_outcome(false), Err(UnableToRespond));
}

#[test]
fn rpc_errors_have_their_texts() {
    assert_eq!(RpcError::InvalidRpcResponse.message(), "Received invalid rpc response message");
    assert_eq!(
        RpcError::UnexpectedResponseChannelCancel.message(),
        "Application layer unexpectedly dropped response channel"
    );
    assert_eq!(
        RpcError::TokioMpscSendError.message(),
        "Error sending on mpsc channel, connection likely shutting down"
    );
    assert_eq!(RpcError::TooManyPending(0).message(), "Too many pending RPCs: 0");
    assert_eq!(RpcError::TooManyPending(4096).message(), "Too many pending RPCs: 4096");
    assert_eq!(RpcError::TimedOut.message(), "Rpc timed out");
    assert_eq!(RpcError::TokioJoinError.message(), "Error in tokio executor, give up");

    let mut bytes = [0u8; 32];
    bytes[0] = 0xab;
    bytes[31] = 0x0f;
    let peer = PeerId(bytes);
    let hex = format!("ab{}0f", "00".repeat(30));
    assert_eq!(peer.text(), hex);
    assert_eq!(
        RpcError::NotConnected(peer).message(),
        format!("Not connected with peer: {}", hex)
    );

    let cause = || anyhow::Error::msg("broken");
    assert_eq!(RpcError::Error(cause()).message(), format!("Error: {:?}", cause()));
    assert_eq!(
        RpcError::ApplicationError(cause()).message(),
        format!("Error in application layer handling rpc request: {:?}", cause())
    );
    let io = || std::io::Error::new(std::io::ErrorKind::Other, "disk");
    assert_eq!(RpcError::IoError(io()).message(), format!("IO error: {}", io()));
    assert_eq!(RpcError::IoError(io()).message(), "IO error: disk");
    let bcs = bcs::from_bytes::<u64>(&[1]).unwrap_err();
    assert_eq!(RpcError::BcsError(bcs.clone()).message(), format!("Bcs error: {:?}", bcs));
    let (mut sender, receiver) = futures::channel::mpsc::channel::<u8>(1);
    drop(receiver);
    let send_error = sender.try_send(1).unwrap_err().into_send_error();
    assert_eq!(
        RpcError::MpscSendError(send_error.clone()).message(),
        format!(
            "Error sending on mpsc channel, connection likely shutting down: {:?}",
            send_error
        )
    );
}

#[test]
fn lines_are_trimmed_as_the_standard_library_trims_them() {
    let lines = [
        "", "\n", " ", "\r\n", "a", " a", "a ", "  a b  ", "\ta\n", "\u{a0}x\u{3000}",
        "\u{2000}\u{200a}y\u{2028}\u{2029}", "\u{85}\u{1680}z\u{202f}\u{205f}", "\u{200b}w",
        "é \n", "\u{b}\u{c}q\u{d}", "http://example.com\n", "x\u{feff}",
    ];
    for line in lines {
        assert_eq!(trim(line), line.trim(), "{:?}", line);
    }
}


#[test]
fn a_handler_gives_back_its_parts() {
    let handler = NetworkHandler::new(Arc::new(1u8), "rx", 2u16, 3u32, 4u64);
    let (epoch, rx, node, driver, fetch) = handler.into_parts();
    assert_eq!((*epoch, rx, node, driver, fetch), (1, "rx", 2, 3, 4));
}

#[test]
fn byte_strings_are_compared_byte_by_byte() {
    assert!(same_bytes(&[], &[]));
    assert!(same_bytes(&[1, 2], &[1, 2]));
    assert!(!same_bytes(&[1, 2], &[1, 3]));
    assert!(!same_bytes(&[1, 2], &[1]));
    assert!(!same_bytes(&[], &[0]));
}

fn tool() -> InitTool {
    InitTool::new(ProfileOptions { profile: "default".to_string() })
}

#[test]
fn an_endpoint_is_given_back_as_the_parser_writes_it() {
    let tool = tool();
    assert_eq!(
        tool.endpoint(EndpointKind::Rest, "http://example.com"),
        Ok("http://example.com/".to_string())
    );
    assert_eq!(
        tool.endpoint(EndpointKind::Faucet, "HTTP://Example.COM:80/a/../b"),
        Ok("http://example.com/b".to_string())
    );
    assert_eq!(
        tool.endpoint(EndpointKind::Rest, ""),
        Ok("https://fullnode.devnet.aptoslabs.com/".to_string())
    );
    assert_eq!(
        tool.endpoint(EndpointKind::Faucet, ""),
        Ok("https://faucet.devnet.aptoslabs.com/".to_string())
    );
    // The line as it is read: a bare Enter gives the default.
    assert_eq!(
        tool.endpoint(EndpointKind::Rest, "\n"),
        Ok("https://fullnode.devnet.aptoslabs.com/".to_string())
    );
    assert_eq!(
        tool.endpoint(EndpointKind::Faucet, " \t\r\n"),
        Ok("https://faucet.devnet.aptoslabs.com/".to_string())
    );
    assert_eq!(
        tool.endpoint(EndpointKind::Rest, "  http://example.com \n"),
        Ok("http://example.com/".to_string())
    );
    assert_eq!(DEFAULT_REST_URL, "https://fullnode.devnet.aptoslabs.com");
    assert_eq!(DEFAULT_FAUCET_URL, "https://faucet.devnet.aptoslabs.com");
}

#[test]
fn an_endpoint_that_is_no_url_is_reported_under_its_name() {
    let tool = tool();
    assert_eq!(
        tool.endpoint(EndpointKind::Rest, "not a url"),
        Err(CliError::UnableToParse("Rest Endpoint", "relative URL without a base".to_string()))
    );
    assert_eq!(
        tool.endpoint(EndpointKind::Faucet, "http://"),
        Err(CliError::UnableToParse("Faucet Endpoint", "empty host".to_string()))
    );
}

#[test]
fn a_default_that_fails_to_parse_is_an_unexpected_error() {
    assert_eq!(
        endpoint_from(EndpointKind::Rest, true, Err("empty host".to_string())),
        Err(CliError::UnexpectedError("Failed to parse default rest URL empty host".to_string()))
    );
    assert_eq!(
        endpoint_from(EndpointKind::Faucet, true, Err("empty host".to_string())),
        Err(CliError::UnexpectedError("Failed to parse default faucet URL empty host".to_string()))
    );
    assert_eq!(
        endpoint_from(EndpointKind::Faucet, false, Err("empty host".to_string())),
        Err(CliError::UnableToParse("Faucet Endpoint", "empty host".to_string()))
    );
    assert_eq!(
        endpoint_from(EndpointKind::Rest, false, Ok("http://a/".to_string())),
        Ok("http://a/".to_string())
    );
    assert_eq!(
        endpoint_from(EndpointKind::Rest, true, Ok("http://a/".to_string())),
        Ok("http://a/".to_string())
    );
}

#[test]
fn the_key_is_kept_generated_or_parsed() {
    let tool = tool();
    assert_eq!(tool.key_choice("", true), KeyChoice::KeepExisting);
    assert_eq!(tool.key_choice("", false), KeyChoice::Generate);
    assert_eq!(tool.key_choice("0xabc", true), KeyChoice::Parse);
    assert_eq!(tool.key_choice("0xabc", false), KeyChoice::Parse);
    assert_eq!(tool.key_choice("\n", true), KeyChoice::KeepExisting);
    assert_eq!(tool.key_choice("\n", false), KeyChoice::Generate);
    assert_eq!(tool.key_choice(" 0xabc\n", true), KeyChoice::Parse);
}

#[test]
fn bare_enter_thrice_sets_up_the_defaults_with_a_new_key() {
    let tool = tool();
    let mut config: CliConfig<ProfileConfig<u8, u16, u32>> = CliConfig::new();
    let selected = tool.select_profile(&mut config, ProfileConfig::empty());
    assert!(selected.private_key.is_none());
    assert!(tool.proceeds(true));
    let rest_url = tool.endpoint(EndpointKind::Rest, "\n").unwrap();
    let faucet_url = tool.endpoint(EndpointKind::Faucet, "\n").unwrap();
    assert_eq!(tool.key_choice("\n", selected.private_key.is_some()), KeyChoice::Generate);
    assert_eq!(tool.account_action(true), AccountAction::Keep);
    let configured = selected.configure(rest_url, faucet_url, 1, 2, 3);
    tool.save_profile(&mut config, configured);

    let saved = config.remove_profile("default").unwrap();
    assert_eq!(saved.rest_url, Some("https://fullnode.devnet.aptoslabs.com/".to_string()));
    assert_eq!(saved.faucet_url, Some("https://faucet.devnet.aptoslabs.com/".to_string()));
    assert_eq!((saved.private_key, saved.public_key, saved.account), (Some(1), Some(2), Some(3)));
    assert!(config.remove_profile("default").is_none());
}

#[test]
fn a_second_run_keeps_the_key_of_the_first() {
    let tool = tool();
    let mut config: CliConfig<ProfileConfig<u8, u16, u32>> = CliConfig::new();
    let first = ProfileConfig::empty().configure("a".to_string(), "b".to_string(), 7, 8, 9);
    tool.save_profile(&mut config, first);
    config.insert_profile("other".to_string(), ProfileConfig::empty());

    let selected = tool.select_profile(&mut config, ProfileConfig::empty());
    assert_eq!(selected.private_key, Some(7));
    assert_eq!(tool.key_choice(" \n", selected.private_key.is_some()), KeyChoice::KeepExisting);
    assert_eq!(tool.key_decision(" \n", selected.private_key), KeyDecision::Keep(7));
    assert_eq!(tool.key_decision::<u8>("\n", None), KeyDecision::Generate);
    assert_eq!(tool.key_decision("0xabc\n", Some(7u8)), KeyDecision::Parse);
    assert_eq!(tool.key_decision::<u8>("0xabc\n", None), KeyDecision::Parse);
    assert!(!tool.proceeds(false));
    // The other profile is untouched, and comes back when it is taken out.
    let other = config.remove_profile("other").unwrap();
    assert!(other.rest_url.is_none());
    assert!(config.remove_profile("other").is_none());
    assert!(config.remove_profile("default").is_none());
}

#[test]
fn a_profile_takes_the_place_of_the_one_of_its_name() {
    let mut config: CliConfig<u8> = CliConfig::new();
    assert!(config.remove_profile("a").is_none());
    config.insert_profile("a".to_string(), 1);
    config.insert_profile("b".to_string(), 2);
    config.insert_profile("a".to_string(), 3);
    assert_eq!(config.remove_profile("b"), Some(2));
    assert_eq!(config.remove_profile("a"), Some(3));
    assert_eq!(config.remove_profile("a"), None);
}

#[test]
fn a_missing_account_is_created_with_the_default_coins() {
    let tool = tool();
    assert_eq!(tool.profile_name(), "default");
    assert_eq!(tool.account_action(true), AccountAction::Keep);
    assert_eq!(tool.account_action(false), AccountAction::CreateAndFund(10000));
    assert_eq!(NUM_DEFAULT_COINS, 10000);
}

#[test]
fn errors_of_the_layers_below_become_rpc_errors() {
    assert!(matches!(RpcError::from(anyhow::Error::msg("x")), RpcError::Error(e) if e.to_string() == "x"));
    let io = std::io::Error::new(std::io::ErrorKind::Other, "disk");
    assert!(matches!(RpcError::from(io), RpcError::IoError(e) if e.to_string() == "disk"));
    let bcs = bcs::from_bytes::<u64>(&[1]).unwrap_err();
    assert!(matches!(RpcError::from(bcs.clone()), RpcError::BcsError(e) if e == bcs));
    assert!(matches!(
        RpcError::from(futures::channel::oneshot::Canceled),
        RpcError::UnexpectedResponseChannelCancel
    ));
    assert!(matches!(
        RpcError::from(tokio::sync::mpsc::error::SendError(5u8)),
        RpcError::TokioJoinError
    ));
    let (mut sender, receiver) = futures::channel::mpsc::channel::<u8>(1);
    drop(receiver);
    let send_error = sender.try_send(1).unwrap_err().into_send_error();
    assert!(matches!(RpcError::from(send_error), RpcError::MpscSendError(e) if e.is_disconnected()));
}

#[test]
fn errors_of_the_runtime_become_rpc_errors() {
    let runtime = tokio::runtime::Builder::new_current_thread().enable_time().build().unwrap();
    let elapsed = runtime
        .block_on(async {
            tokio::time::timeout(std::time::Duration::from_millis(1), std::future::pending::<()>())
                .await
        })
        .unwrap_err();
    assert!(matches!(RpcError::from(elapsed), RpcError::TimedOut));

    let handle = runtime.spawn(std::future::pending::<()>());
    handle.abort();
    let join_error = runtime.block_on(handle).unwrap_err();
    let expected = format!("JoinError: {:?}", join_error);
    match RpcError::from(join_error) {
        RpcError::Error(report) => assert_eq!(report.to_string(), expected),
        other => panic!("unexpected {:?}", other),
    }
}

#[test]
fn a_run_of_the_tool_takes_its_steps_in_order() {
    let mut step = InitStep::first();
    let mut seen = vec![step];
    loop {
        match step.after(true) {
            InitNext::Go(next) => {
                step = next;
                seen.push(step);
            },
            end => {
                assert_eq!(end, InitNext::Finished);
                break;
            },
        }
    }
    // With an account that is found, the faucet is not asked.
    assert_eq!(
        seen,
        vec![
            InitStep::LoadConfig,
            InitStep::Confirm,
            InitStep::RestEndpoint,
            InitStep::FaucetEndpoint,
            InitStep::PrivateKey,
            InitStep::LookupAccount,
            InitStep::Save,
        ]
    );
    assert_eq!(InitStep::LookupAccount.after(false), InitNext::Go(InitStep::CreateAccount));
    assert_eq!(InitStep::CreateAccount.after(true), InitNext::Go(InitStep::Save));
}

#[test]
fn a_run_of_the_tool_ends_where_a_step_fails_or_the_user_declines() {
    assert_eq!(InitStep::Confirm.after(false), InitNext::Exit);
    for step in [
        InitStep::LoadConfig,
        InitStep::RestEndpoint,
        InitStep::FaucetEndpoint,
        InitStep::PrivateKey,
        InitStep::CreateAccount,
        InitStep::Save,
    ] {
        assert_eq!(step.after(false), InitNext::Fail);
    }
}

#[test]
fn a_key_that_cannot_be_read_is_reported_under_its_name() {
    assert_eq!(key_from(Ok(5u8)), Ok(5));
    assert_eq!(
        key_from::<u8>(Err("odd number of digits".to_string())),
        Err(CliError::UnableToParse("Ed25519PrivateKey", "odd number of digits".to_string()))
    );
}

#[test]
fn the_report_on_a_failed_task_starts_with_its_name() {
    assert_eq!(join_error_text("Cancelled"), "JoinError: Cancelled");
    assert_eq!(join_error_text(""), "JoinError: ");
}
