use katago_server::AnalysisLineClass;
use katago_server::Diagnostics;
use katago_server::KatagoError;
use katago_server::RequestConfig;
use katago_server::classify_analysis_line;
use katago_server::decimal_field;
use katago_server::find_after;
use katago_server::handle_response;
use katago_server::is_final_response;
use katago_server::join_lines;
use katago_server::ownership_values;
use katago_server::parse_i32_field;
use katago_server::parse_move_response;
use katago_server::score_commands;
use katago_server::select_move_commands;
use katago_server::split_tokens;
use katago_server::trim_str;

fn options(komi: Option<i32>, client: Option<&str>, ownership: Option<bool>) -> RequestConfig {
    RequestConfig {
        komi,
        client: client.map(|c| c.to_string()),
        request_id: None,
        ownership,
    }
}

#[test]
fn test_chat_line_updates_diagnostics() {
    let mut diag = Diagnostics::default();
    diag.best_ten.push(katago_server::MoveCandidate { mv: "D4".to_string(), psv: 1 });
    handle_response("CHAT: Visits 64 Winrate 55.60% ScoreLead 1.5 Info", &mut diag);
    assert_eq!(diag.winprob.as_deref(), Some("55.60"));
    assert_eq!(diag.score.as_deref(), Some("1.5"));
    assert!(diag.best_ten.is_empty());
}

#[test]
fn test_psv_line_appends_candidate() {
    let mut diag = Diagnostics::default();
    handle_response("D4  : T  12.30c W  55.2c S   1.1c ( +0.3 L  +0.2) N    48  --  PSV      48 Q16 D16", &mut diag);
    assert_eq!(diag.best_ten.len(), 1);
    assert_eq!(diag.best_ten[0].mv, "D4");
    assert_eq!(diag.best_ten[0].psv, 48);
}

#[test]
fn test_info_line_updates_move_and_rates() {
    let mut diag = Diagnostics::default();
    handle_response("info move D4 visits 100 winrate 0.5534 scoreLead 1.25 order 0", &mut diag);
    assert_eq!(diag.bot_move, "D4");
    assert_eq!(diag.winprob.as_deref(), Some("0.5534"));
    assert_eq!(diag.score.as_deref(), Some("1.25"));
}

#[test]
fn test_success_reply_records_move() {
    let mut diag = Diagnostics::default();
    handle_response("= Q16", &mut diag);
    assert_eq!(diag.bot_move, "Q16");
    // an empty success reply changes nothing
    handle_response("=  ", &mut diag);
    assert_eq!(diag.bot_move, "Q16");
    // unrelated chatter changes nothing
    handle_response("? unknown command", &mut diag);
    assert_eq!(diag.bot_move, "Q16");
}

#[test]
fn test_non_numeric_captures_are_ignored() {
    let mut diag = Diagnostics::default();
    handle_response("CHAT: Winrate unknown ScoreLead n/a x", &mut diag);
    assert!(diag.winprob.is_none());
    assert!(diag.score.is_none());
}

#[test]
fn test_select_move_commands_script() {
    let moves: Vec<String> =
        vec!["D4".to_string(), "pass".to_string(), "Q16".to_string()];
    let (cmds, color) = select_move_commands(&moves, &options(None, None, None));
    assert_eq!(
        cmds,
        vec![
            "komi 7.5".to_string(),
            "clear_board".to_string(),
            "clear_cache".to_string(),
            "kata-set-rules chinese".to_string(),
            "play b D4".to_string(),
            "play b Q16".to_string(),
            "genmove w".to_string(),
        ]
    );
    assert_eq!(color, "w");
}

#[test]
fn test_select_move_commands_kifucam_rules() {
    let moves: Vec<String> = vec![];
    let (cmds, _color) = select_move_commands(&moves, &options(Some(13), Some("kifucam"), None));
    assert_eq!(cmds[0], "komi 6.5");
    assert_eq!(cmds[3], "kata-set-rules chinese");
}

#[test]
fn test_score_commands_script() {
    let moves: Vec<String> = vec!["D4".to_string()];
    let cmds = score_commands(&moves, &options(Some(14), None, None));
    assert_eq!(cmds[0], "komi 7");
    assert_eq!(cmds[3], "kata-set-rules japanese");
    assert_eq!(cmds[4], "play b D4");
    assert_eq!(cmds[5], "kata-analyze 100 ownership true");
    let cmds = score_commands(&moves, &options(Some(14), None, Some(false)));
    assert_eq!(cmds[5], "kata-analyze 100 ownership false");
}

#[test]
fn test_final_response_filter() {
    assert!(is_final_response("= D4"));
    assert!(is_final_response("info move D4"));
    assert!(!is_final_response("? error"));
    assert!(!is_final_response("rootInfo winrate 0.5"));
}

#[test]
fn test_parse_move_response_strips_marker() {
    assert_eq!(parse_move_response("=  D4 ").unwrap(), "D4");
    match parse_move_response("? no move") {
        Err(KatagoError::ParseError(d)) => assert_eq!(d, "Invalid move response"),
        _ => panic!("only a success reply carries a move"),
    }
}

#[test]
fn test_classify_analysis_lines() {
    assert!(matches!(classify_analysis_line("= "), AnalysisLineClass::Acknowledgement));
    assert!(matches!(classify_analysis_line("info move D4"), AnalysisLineClass::Collect));
    assert!(matches!(
        classify_analysis_line("rootInfo winrate 0.5"),
        AnalysisLineClass::Collect
    ));
    assert!(matches!(
        classify_analysis_line("ownershipStdev 0.1 0.2"),
        AnalysisLineClass::Collect
    ));
    assert!(matches!(
        classify_analysis_line("ownership 0.1 0.2"),
        AnalysisLineClass::CollectLast
    ));
    assert!(matches!(classify_analysis_line("play b D4"), AnalysisLineClass::Other));
}

#[test]
fn test_join_lines() {
    let v = vec!["a".to_string(), "b".to_string(), "c".to_string()];
    assert_eq!(join_lines(&v), "a\nb\nc");
    assert_eq!(join_lines(&Vec::new()), "");
}

#[test]
fn test_ownership_values_extraction() {
    let response = "info move D4 winrate 0.5\nrootInfo winrate 0.51\nownership 0.1 -0.2 0.33 end 0.4";
    let values = ownership_values(response);
    assert_eq!(values, vec!["0.1".to_string(), "-0.2".to_string(), "0.33".to_string()]);
    assert_eq!(ownership_values("info nothing here"), Vec::<String>::new());
}

#[test]
fn test_decimal_field_shapes() {
    assert!(decimal_field("0.5334"));
    assert!(decimal_field("-0.031"));
    assert!(decimal_field("+7"));
    assert!(decimal_field("42"));
    assert!(!decimal_field("n/a"));
    assert!(!decimal_field("1.2.3"));
    assert!(!decimal_field("."));
    assert!(!decimal_field(""));
}

#[test]
fn test_parse_i32_field_values() {
    assert_eq!(parse_i32_field("48"), Some(48));
    assert_eq!(parse_i32_field("-7"), Some(-7));
    assert_eq!(parse_i32_field("2147483647"), Some(2147483647));
    assert_eq!(parse_i32_field("-2147483648"), Some(-2147483648));
    assert_eq!(parse_i32_field("2147483648"), None);
    assert_eq!(parse_i32_field("abc"), None);
    assert_eq!(parse_i32_field(""), None);
}

#[test]
fn test_token_scanning() {
    assert_eq!(
        split_tokens("  a  bb\tc "),
        vec!["a".to_string(), "bb".to_string(), "c".to_string()]
    );
    assert_eq!(find_after("Winrate  55% more", "Winrate"), Some("55%".to_string()));
    assert_eq!(find_after("ends with Winrate", "Winrate"), None);
    assert_eq!(trim_str("  x y \t"), "x y");
}
