use katago_server::AnalysisEngine;
use katago_server::AnalysisRequest;
use katago_server::KatagoConfig;
use katago_server::KatagoError;
use katago_server::RouteOutcome;
use katago_server::TickAction;
use katago_server::WaitOutcome;
use katago_server::build_query;
use katago_server::column_letter_for_size;
use katago_server::encode_query;
use katago_server::is_valid_move;
use katago_server::rules_from_komi;

fn test_config(timeout_secs: u64) -> KatagoConfig {
    KatagoConfig {
        katago_path: "./katago".to_string(),
        model_path: "./model.bin.gz".to_string(),
        human_model_path: None,
        config_path: "./gtp_config.cfg".to_string(),
        move_timeout_secs: timeout_secs,
    }
}

fn plain_request(moves: Vec<&str>, request_id: Option<&str>) -> AnalysisRequest {
    AnalysisRequest {
        moves: moves.into_iter().map(|m| m.to_string()).collect(),
        rules: None,
        komi_half: Some(15),
        board_x_size: 19,
        board_y_size: 19,
        initial_stones: None,
        initial_player: None,
        max_visits: None,
        include_ownership: None,
        include_policy: None,
        include_pv_visits: None,
        override_settings: None,
        request_id: request_id.map(|s| s.to_string()),
    }
}

#[test]
fn test_move_validation_9x9_board() {
    // Valid moves on 9x9 board
    assert!(is_valid_move("A1", 9, 9));
    assert!(is_valid_move("D4", 9, 9));
    assert!(is_valid_move("J9", 9, 9)); // J is the 9th column (I is skipped)
    assert!(is_valid_move("H5", 9, 9));
    assert!(is_valid_move("pass", 9, 9));
    assert!(is_valid_move("PASS", 9, 9));

    // Invalid moves on 9x9 board
    assert!(!is_valid_move("R4", 9, 9)); // R is column 17 (skipping I)
    assert!(!is_valid_move("K1", 9, 9)); // K would be column 10
    assert!(!is_valid_move("A10", 9, 9)); // Row 10 doesn't exist on 9x9
    assert!(!is_valid_move("I5", 9, 9)); // I is never a valid column
    assert!(!is_valid_move("A0", 9, 9)); // Row 0 doesn't exist
}

#[test]
fn test_move_validation_19x19_board() {
    // Valid moves on 19x19 board
    assert!(is_valid_move("A1", 19, 19));
    assert!(is_valid_move("D4", 19, 19));
    assert!(is_valid_move("R4", 19, 19)); // R is valid on 19x19
    assert!(is_valid_move("T19", 19, 19)); // T is the 19th column
    assert!(is_valid_move("Q16", 19, 19));

    // Invalid moves on 19x19 board
    assert!(!is_valid_move("U1", 19, 19)); // U would be column 20
    assert!(!is_valid_move("A20", 19, 19)); // Row 20 doesn't exist
    assert!(!is_valid_move("I5", 19, 19)); // I is never valid
}

#[test]
fn test_column_letter_for_size() {
    assert_eq!(column_letter_for_size(9), 'J'); // A-H, J (skip I)
    assert_eq!(column_letter_for_size(19), 'T'); // A-H, J-T
    assert_eq!(column_letter_for_size(5), 'E');
}

#[test]
fn test_rules_from_komi() {
    assert_eq!(rules_from_komi(14), "japanese"); // 7.0: whole
    assert_eq!(rules_from_komi(13), "japanese"); // 6.5: whole part even
    assert_eq!(rules_from_komi(15), "chinese"); // 7.5: whole part odd
    assert_eq!(rules_from_komi(9), "japanese"); // 4.5: whole part even
    assert_eq!(rules_from_komi(-11), "japanese"); // -5.5: whole part -6, even
    assert_eq!(rules_from_komi(-9), "chinese"); // -4.5: whole part -5, odd
}

#[test]
fn test_query_encoding_happy_path() {
    let req = plain_request(vec!["D4", "Q16"], Some("req-1"));
    let q = build_query(&req, "req-1".to_string());
    let payload = encode_query(&q);
    let expected = "{\"id\":\"req-1\",\"initialStones\":[],\"moves\":[[\"b\",\"D4\"],[\"w\",\"Q16\"]],\"rules\":\"chinese\",\"komi\":7.5,\"boardXSize\":19,\"boardYSize\":19,\"maxVisits\":10}";
    assert_eq!(payload, expected);
}

#[test]
fn test_query_encoding_options_and_escaping() {
    let req = AnalysisRequest {
        moves: vec!["D4".to_string()],
        rules: Some("tromp-taylor".to_string()),
        komi_half: Some(-13),
        board_x_size: 9,
        board_y_size: 13,
        initial_stones: Some(vec![("B".to_string(), "D16".to_string())]),
        initial_player: Some("W".to_string()),
        max_visits: Some(64),
        include_ownership: Some(true),
        include_policy: Some(false),
        include_pv_visits: Some(true),
        override_settings: Some("{\"humanSLProfile\":\"rank_3d\"}".to_string()),
        request_id: Some("a\"b".to_string()),
    };
    let q = build_query(&req, "a\"b".to_string());
    let payload = encode_query(&q);
    let expected = "{\"id\":\"a\\\"b\",\"initialStones\":[[\"B\",\"D16\"]],\"moves\":[[\"w\",\"D4\"]],\"rules\":\"tromp-taylor\",\"komi\":-6.5,\"boardXSize\":9,\"boardYSize\":13,\"maxVisits\":64,\"includeOwnership\":true,\"includePolicy\":false,\"includePvVisits\":true,\"overrideSettings\":{\"humanSLProfile\":\"rank_3d\"}}";
    assert_eq!(payload, expected);
    assert!(!payload.contains('\n'));
}

#[test]
fn test_handicap_first_player_inference() {
    let mut req = plain_request(vec!["Q16"], None);
    req.initial_stones = Some(vec![
        ("B".to_string(), "D4".to_string()),
        ("B".to_string(), "D16".to_string()),
    ]);
    let q = build_query(&req, "x".to_string());
    // with initial stones, white plays first
    assert_eq!(q.moves[0].0, "w");
}

#[test]
fn test_analyze_happy_path_round_trip() {
    let mut engine: AnalysisEngine<u32> = AnalysisEngine::new(test_config(20));
    engine.on_spawned();
    assert!(engine.is_alive());
    let req = plain_request(vec!["D4", "Q16"], Some("req-1"));
    let (q, payload) = engine.begin_analysis(&req, 7).expect("analysis should start");
    assert_eq!(q.id, "req-1");
    assert!(payload.contains("\"id\":\"req-1\""));
    assert_eq!(engine.pending_len(), 1);
    engine.note_submit(&q.id, true).expect("write ok");
    // the engine answers: the response is routed by its own id
    let line = "{\"id\":\"req-1\",\"turnNumber\":2,\"moveInfos\":[]}".to_string();
    match engine.handle_output_line(&line) {
        RouteOutcome::Deliver(slot) => assert_eq!(slot, 7),
        _ => panic!("expected delivery to the registered waiter"),
    }
    assert_eq!(engine.pending_len(), 0);
    let out = engine.settle_wait(
        &q.id,
        WaitOutcome::Delivered {
            line: line.clone(),
            schema_ok: true,
            detail: String::new(),
        },
    );
    assert_eq!(out.expect("delivered line is the response"), line);
}

#[test]
fn test_dead_engine_fails_fast() {
    let mut engine: AnalysisEngine<u32> = AnalysisEngine::new(test_config(20));
    // never spawned: liveness is false
    let req = plain_request(vec!["D4"], Some("req-1"));
    match engine.begin_analysis(&req, 1) {
        Err(KatagoError::ProcessDied) => {}
        _ => panic!("a dead engine must fail fast"),
    }
}

#[test]
fn test_duplicate_id_rejected() {
    let mut engine: AnalysisEngine<u32> = AnalysisEngine::new(test_config(20));
    engine.on_spawned();
    let req = plain_request(vec!["D4"], Some("req-1"));
    engine.begin_analysis(&req, 1).expect("first registration");
    match engine.begin_analysis(&req, 2) {
        Err(KatagoError::DuplicateId(id)) => assert_eq!(id, "req-1"),
        _ => panic!("second registration of the same id must fail"),
    }
    assert_eq!(engine.pending_len(), 1);
}

#[test]
fn test_reserved_ids_rejected() {
    let mut engine: AnalysisEngine<u32> = AnalysisEngine::new(test_config(20));
    engine.on_spawned();
    let req = plain_request(vec!["D4"], Some("keepalive"));
    match engine.begin_analysis(&req, 1) {
        Err(KatagoError::DuplicateId(id)) => assert_eq!(id, "keepalive"),
        _ => panic!("the ping id is reserved"),
    }
    let req = plain_request(vec!["D4"], Some("query_version"));
    match engine.begin_analysis(&req, 1) {
        Err(KatagoError::DuplicateId(id)) => assert_eq!(id, "query_version"),
        _ => panic!("the version id is reserved"),
    }
    assert_eq!(engine.pending_len(), 0);
}

#[test]
fn test_generated_id_is_uuid_shaped() {
    let mut engine: AnalysisEngine<u32> = AnalysisEngine::new(test_config(20));
    engine.on_spawned();
    let req = plain_request(vec!["D4"], None);
    let (q, payload) = engine.begin_analysis(&req, 1).expect("start");
    assert_eq!(q.id.chars().count(), 36);
    assert!(payload.contains(&q.id));
}

#[test]
fn test_timeout_removes_pending_entry() {
    let mut engine: AnalysisEngine<u32> = AnalysisEngine::new(test_config(1));
    engine.on_spawned();
    let req = plain_request(vec!["D4"], Some("slow"));
    let (q, _payload) = engine.begin_analysis(&req, 1).expect("start");
    assert_eq!(engine.pending_len(), 1);
    match engine.settle_wait(&q.id, WaitOutcome::TimedOut) {
        Err(KatagoError::Timeout(secs)) => assert_eq!(secs, 1),
        _ => panic!("expected the timeout error"),
    }
    // the entry is gone when the call returns
    assert_eq!(engine.pending_len(), 0);
    // a late response for the same id is now an orphan
    let late = "{\"id\":\"slow\"}".to_string();
    match engine.handle_output_line(&late) {
        RouteOutcome::UnknownId => {}
        _ => panic!("a late response must be dropped"),
    }
}

#[test]
fn test_concurrent_fan_out() {
    let mut engine: AnalysisEngine<usize> = AnalysisEngine::new(test_config(20));
    engine.on_spawned();
    let mut ids = Vec::new();
    for k in 0..50usize {
        let id = format!("id-{}", k);
        let req = plain_request(vec!["D4"], Some(&id));
        let (q, _payload) = engine.begin_analysis(&req, k).expect("start");
        assert_eq!(q.id, id);
        ids.push(id);
    }
    assert_eq!(engine.pending_len(), 50);
    // responses arrive in the engine's own order (here: reversed), yet
    // each one reaches exactly the waiter registered under its id
    let mut delivered = Vec::new();
    for k in (0..50usize).rev() {
        let line = format!("{{\"id\":\"id-{}\",\"turnNumber\":1}}", k);
        match engine.handle_output_line(&line) {
            RouteOutcome::Deliver(slot) => {
                assert_eq!(slot, k);
                delivered.push(k);
            }
            _ => panic!("every registered id must be served"),
        }
    }
    delivered.sort();
    assert_eq!(delivered, (0..50usize).collect::<Vec<_>>());
    assert_eq!(engine.pending_len(), 0);
}

#[test]
fn test_engine_death_cancels_all_waiters() {
    let mut engine: AnalysisEngine<u32> = AnalysisEngine::new(test_config(20));
    engine.on_spawned();
    for k in 0..3u32 {
        let id = format!("id-{}", k);
        let req = plain_request(vec!["D4"], Some(&id));
        engine.begin_analysis(&req, k).expect("start");
    }
    let drained = engine.on_output_eof();
    assert_eq!(drained.len(), 3);
    assert!(!engine.is_alive());
    assert_eq!(engine.pending_len(), 0);
    // each cancelled waiter observes the dead-engine error
    match engine.settle_wait(&"id-0".to_string(), WaitOutcome::Closed) {
        Err(KatagoError::ProcessDied) => {}
        _ => panic!("a closed slot means the engine died"),
    }
}

#[test]
fn test_supervised_restart() {
    let mut engine: AnalysisEngine<u32> = AnalysisEngine::new(test_config(20));
    engine.on_spawned();
    // the engine dies
    let _ = engine.on_output_eof();
    assert!(!engine.is_alive());
    // the next tick asks for a restart
    match engine.supervisor_tick() {
        TickAction::Restart => {}
        _ => panic!("a dead engine below the cap is restarted"),
    }
    engine.on_restart(true);
    assert!(engine.is_alive());
    assert_eq!(engine.restart_attempts(), 1);
    // a fresh request completes normally on the new incarnation
    let req = plain_request(vec!["D4"], Some("after"));
    let (q, _payload) = engine.begin_analysis(&req, 9).expect("fresh request");
    let line = "{\"id\":\"after\"}".to_string();
    match engine.handle_output_line(&line) {
        RouteOutcome::Deliver(slot) => assert_eq!(slot, 9),
        _ => panic!("the new incarnation serves fresh requests"),
    }
    let _ = engine.settle_wait(
        &q.id,
        WaitOutcome::Delivered { line, schema_ok: true, detail: String::new() },
    );
    // a successful ping resets the counter to zero
    let drained = engine.on_ping_write(true);
    assert!(drained.is_empty());
    assert_eq!(engine.restart_attempts(), 0);
}

#[test]
fn test_restart_cap_reached_only_observes() {
    let mut engine: AnalysisEngine<u32> = AnalysisEngine::new(test_config(20));
    for _ in 0..5 {
        match engine.supervisor_tick() {
            TickAction::Restart => engine.on_restart(false),
            _ => panic!("attempts remain"),
        }
    }
    assert_eq!(engine.restart_attempts(), 5);
    match engine.supervisor_tick() {
        TickAction::Observe => {}
        _ => panic!("at the cap the supervisor only observes"),
    }
}

#[test]
fn test_orphan_response_is_dropped() {
    let mut engine: AnalysisEngine<u32> = AnalysisEngine::new(test_config(20));
    engine.on_spawned();
    let req = plain_request(vec!["D4"], Some("mine"));
    engine.begin_analysis(&req, 1).expect("start");
    let line = "{\"id\":\"nobody\"}".to_string();
    match engine.handle_output_line(&line) {
        RouteOutcome::UnknownId => {}
        _ => panic!("an orphan response must not disturb anyone"),
    }
    assert_eq!(engine.pending_len(), 1);
    // a non-JSON line is chatter
    let chatter = "starting search".to_string();
    match engine.handle_output_line(&chatter) {
        RouteOutcome::Unroutable => {}
        _ => panic!("chatter is not routable"),
    }
}

#[test]
fn test_ping_transparency() {
    let mut engine: AnalysisEngine<u32> = AnalysisEngine::new(test_config(20));
    engine.on_spawned();
    let req = plain_request(vec!["D4"], Some("caller"));
    engine.begin_analysis(&req, 1).expect("start");
    let payload = match engine.supervisor_tick() {
        TickAction::SendPing(p) => p,
        _ => panic!("a live engine is pinged"),
    };
    assert_eq!(payload, "{\"id\":\"keepalive\",\"action\":\"query_version\"}");
    // the ping's answer matches no waiter and is dropped
    let answer = "{\"id\":\"keepalive\",\"version\":\"1.15.0\"}".to_string();
    match engine.handle_output_line(&answer) {
        RouteOutcome::UnknownId => {}
        _ => panic!("ping responses are never caller-visible"),
    }
    assert_eq!(engine.pending_len(), 1);
}

#[test]
fn test_ping_failure_kills_and_drains() {
    let mut engine: AnalysisEngine<u32> = AnalysisEngine::new(test_config(20));
    engine.on_spawned();
    let req = plain_request(vec!["D4"], Some("caller"));
    engine.begin_analysis(&req, 1).expect("start");
    let drained = engine.on_ping_write(false);
    assert_eq!(drained.len(), 1);
    assert!(!engine.is_alive());
    assert_eq!(engine.pending_len(), 0);
}

#[test]
fn test_write_failure_cancels_registration() {
    let mut engine: AnalysisEngine<u32> = AnalysisEngine::new(test_config(20));
    engine.on_spawned();
    let req = plain_request(vec!["D4"], Some("doomed"));
    let (q, _payload) = engine.begin_analysis(&req, 1).expect("start");
    match engine.note_submit(&q.id, false) {
        Err(KatagoError::ProcessDied) => {}
        _ => panic!("a failed write means the engine is dead"),
    }
    assert!(!engine.is_alive());
    assert_eq!(engine.pending_len(), 0);
}

#[test]
fn test_engine_error_and_protocol_error_settlement() {
    let mut engine: AnalysisEngine<u32> = AnalysisEngine::new(test_config(20));
    engine.on_spawned();
    let req = plain_request(vec!["D4"], Some("r"));
    let (q, _payload) = engine.begin_analysis(&req, 1).expect("start");
    // a delivered line with an error field is the engine's own error
    let line = "{\"id\":\"r\",\"error\":\"illegal move\"}".to_string();
    match engine.settle_wait(
        &q.id,
        WaitOutcome::Delivered { line, schema_ok: false, detail: "schema".to_string() },
    ) {
        Err(KatagoError::ResponseError(m)) => assert_eq!(m, "\"illegal move\""),
        _ => panic!("expected the engine's own error"),
    }
    // a delivered line that decodes to nothing useful is a protocol error
    let line = "{\"id\":\"r\",\"moveInfos\":\"bogus\"}".to_string();
    match engine.settle_wait(
        &q.id,
        WaitOutcome::Delivered { line, schema_ok: false, detail: "bad shape".to_string() },
    ) {
        Err(KatagoError::ParseError(d)) => assert_eq!(d, "bad shape"),
        _ => panic!("expected the protocol error"),
    }
}

#[test]
fn test_clear_cache_and_version_requests() {
    let engine: AnalysisEngine<u32> = AnalysisEngine::new(test_config(20));
    let (id, payload) = engine.clear_cache_request();
    assert_eq!(id.chars().count(), 36);
    assert_eq!(
        payload,
        format!("{{\"id\":\"{}\",\"action\":\"clear_cache\"}}", id)
    );
    let vp = AnalysisEngine::<u32>::version_request();
    assert_eq!(vp, "{\"id\":\"query_version\",\"action\":\"query_version\"}");
    // before the engine lives, the version query fails
    match engine.settle_version() {
        Err(KatagoError::ProcessDied) => {}
        _ => panic!("no version from a dead engine"),
    }
    let mut engine = engine;
    engine.on_spawned();
    let (version, git_hash) = engine.settle_version().expect("live engine");
    assert_eq!(version, "1.15.0");
    assert!(git_hash.is_none());
}

#[test]
fn test_engine_argument_lists() {
    let config = test_config(20);
    assert_eq!(
        katago_server::analysis_engine_args(&config),
        vec!["analysis", "-model", "./model.bin.gz", "-config", "./gtp_config.cfg"]
    );
    let mut config = test_config(20);
    config.human_model_path = Some("./human.bin.gz".to_string());
    assert_eq!(
        katago_server::analysis_engine_args(&config),
        vec![
            "analysis",
            "-model",
            "./model.bin.gz",
            "-human-model",
            "./human.bin.gz",
            "-config",
            "./gtp_config.cfg"
        ]
    );
    assert_eq!(
        katago_server::gtp_engine_args(&test_config(20)),
        vec!["gtp", "-model", "./model.bin.gz", "-config", "./gtp_config.cfg"]
    );
}

#[test]
fn test_default_board_size_value() {
    assert_eq!(katago_server::default_board_size(), 19);
}

#[test]
fn test_to_lower_ascii() {
    assert_eq!(katago_server::to_lower("Black"), "black");
    assert_eq!(katago_server::to_lower("W"), "w");
    assert_eq!(katago_server::to_lower("b2!"), "b2!");
}
