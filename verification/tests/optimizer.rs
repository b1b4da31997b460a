use tapevm::command::Command;
use tapevm::command_opt::CommandOpt;
use tapevm::command_opt::ParseError;
use tapevm::command_opt::ParseState;
use tapevm::command_opt::optimize_prg;
use tapevm::command_opt::parse;
use tapevm::command_opt::tokenize;

#[test]
fn classifies_each_command_character() {
    assert_eq!(Command::from_char('>'), Some(Command::IncPtr));
    assert_eq!(Command::from_char('<'), Some(Command::DecPtr));
    assert_eq!(Command::from_char('+'), Some(Command::IncVal));
    assert_eq!(Command::from_char('-'), Some(Command::DecVal));
    assert_eq!(Command::from_char('.'), Some(Command::PutChar));
    assert_eq!(Command::from_char(','), Some(Command::GetChar));
    assert_eq!(Command::from_char('['), Some(Command::OpenBr));
    assert_eq!(Command::from_char(']'), Some(Command::CloseBr));
    assert_eq!(Command::from_char('x'), None);
}

#[test]
fn tokenizer_drops_comment_characters() {
    assert_eq!(
        tapevm::command::parse("a + b\n[,]."),
        vec![
            Command::IncVal,
            Command::OpenBr,
            Command::GetChar,
            Command::CloseBr,
            Command::PutChar,
        ]
    );
}

#[test]
fn folds_value_run_before_output() {
    assert_eq!(
        parse("++.").unwrap(),
        vec![CommandOpt::ChVal(2), CommandOpt::PutChar]
    );
}

#[test]
fn folds_pointer_runs_around_value_run() {
    assert_eq!(
        parse(">>+<<.").unwrap(),
        vec![
            CommandOpt::ChPtr(2),
            CommandOpt::ChVal(1),
            CommandOpt::ChPtr(-2),
            CommandOpt::PutChar,
        ]
    );
}

#[test]
fn folds_zero_loop_to_set_zero() {
    assert_eq!(
        parse("+[-]").unwrap(),
        vec![CommandOpt::ChVal(1), CommandOpt::Zero]
    );
    assert_eq!(parse("[+]").unwrap(), vec![CommandOpt::Zero]);
}

#[test]
fn folds_even_loop_to_infinite_loop() {
    assert_eq!(parse("[--]").unwrap(), vec![CommandOpt::LoopForever]);
    assert_eq!(parse("[++]").unwrap(), vec![CommandOpt::LoopForever]);
}

#[test]
fn zero_net_loop_body_resolves_as_empty_loop() {
    assert_eq!(
        parse("[+-]").unwrap(),
        vec![CommandOpt::OpenBr(2), CommandOpt::CloseBr(1)]
    );
}

#[test]
fn zero_delta_runs_vanish() {
    assert_eq!(parse("+-").unwrap(), Vec::<CommandOpt>::new());
    assert_eq!(parse("><").unwrap(), Vec::<CommandOpt>::new());
}

#[test]
fn value_run_folds_mod_256() {
    let code: String = "+".repeat(256);
    assert_eq!(parse(&code).unwrap(), vec![CommandOpt::ChVal(0)]);
    assert_eq!(parse("-").unwrap(), vec![CommandOpt::ChVal(255)]);
}

#[test]
fn stray_close_is_unbalanced() {
    assert_eq!(parse("]"), Err(ParseError::UnbalancedBrackets));
    assert_eq!(parse("+[>]<]"), Err(ParseError::UnbalancedBrackets));
}

#[test]
fn stray_open_is_unclosed() {
    assert_eq!(parse("["), Err(ParseError::UnclosedBracket));
    assert_eq!(parse("+[[-]"), Err(ParseError::UnclosedBracket));
}

#[test]
fn balanced_nesting_succeeds() {
    assert!(parse("[[]][]").is_ok());
    assert!(tokenize("[[][[]]]").is_ok());
}

#[test]
fn copy_loop_resolves_mutually() {
    assert_eq!(
        parse("+[>+<-]").unwrap(),
        vec![
            CommandOpt::ChVal(1),
            CommandOpt::OpenBr(7),
            CommandOpt::ChPtr(1),
            CommandOpt::ChVal(1),
            CommandOpt::ChPtr(-1),
            CommandOpt::ChVal(255),
            CommandOpt::CloseBr(2),
        ]
    );
}

#[test]
fn empty_loop_targets_point_past_each_other() {
    assert_eq!(
        parse("[]").unwrap(),
        vec![CommandOpt::OpenBr(2), CommandOpt::CloseBr(1)]
    );
}

#[test]
fn parse_state_accumulates_pointer_moves() {
    let mut st = ParseState::new();
    st.ch_ptr(3);
    st.ch_ptr(-1);
    st.apply_counts();
    assert_eq!(st.get_result().unwrap(), vec![CommandOpt::ChPtr(2)]);
}

#[test]
fn parse_state_switches_accumulator_kind() {
    let mut st = ParseState::new();
    st.ch_val(2);
    st.ch_ptr(1);
    assert_eq!(
        st.get_result().unwrap(),
        vec![CommandOpt::ChVal(2), CommandOpt::ChPtr(1)]
    );
}

#[test]
fn parse_state_feed_reports_stray_close() {
    let mut st = ParseState::new();
    assert_eq!(
        st.feed(&Command::CloseBr),
        Err(ParseError::UnbalancedBrackets)
    );
}

#[test]
fn parse_state_get_result_reports_unclosed() {
    let mut st = ParseState::new();
    st.feed(&Command::OpenBr).unwrap();
    assert_eq!(st.get_result(), Err(ParseError::UnclosedBracket));
}

#[test]
fn optimize_prg_matches_parse() {
    let tokens = tapevm::command::parse("+[>+<-]");
    assert_eq!(optimize_prg(&tokens).unwrap(), parse("+[>+<-]").unwrap());
}

#[test]
fn refolding_decoded_output_is_identity() {
    // ++>-- folds to ChVal(2), ChPtr(1), ChVal(254); decoded back to
    // raw tokens, one more pass emits exactly the same stream
    let first = parse("++>--").unwrap();
    assert_eq!(
        first,
        vec![
            CommandOpt::ChVal(2),
            CommandOpt::ChPtr(1),
            CommandOpt::ChVal(254),
        ]
    );
    let decoded: String = format!("{}{}{}", "+".repeat(2), ">", "+".repeat(254));
    assert_eq!(parse(&decoded).unwrap(), first);
}

#[test]
fn refolding_decoded_idioms_is_identity() {
    // SetZero decodes to [-], the infinite-loop idiom to [--]
    let first = parse(".[-]>[++]").unwrap();
    assert_eq!(
        first,
        vec![
            CommandOpt::PutChar,
            CommandOpt::Zero,
            CommandOpt::ChPtr(1),
            CommandOpt::LoopForever,
        ]
    );
    assert_eq!(parse(".[-]>[--]").unwrap(), first);
}

#[test]
fn refolding_decoded_loop_is_identity() {
    // a real resolved pair: decoding ChVal(255) back to 255 raw
    // increments and re-optimizing reproduces the stream exactly
    let first = parse("+[>+<-]").unwrap();
    let decoded = format!("+[>+<{}]", "+".repeat(255));
    assert_eq!(parse(&decoded).unwrap(), first);
}

#[test]
fn decoder_emits_token_runs() {
    let prg = parse("++>[-]").unwrap();
    let tokens = tapevm::roundtrip::decode_prg(&prg);
    assert_eq!(
        tokens,
        vec![
            Command::IncVal,
            Command::IncVal,
            Command::IncPtr,
            Command::OpenBr,
            Command::DecVal,
            Command::CloseBr,
        ]
    );
}

#[test]
fn refolding_decoder_output_is_identity() {
    // the round trip through the decoder: optimize, decode, optimize
    for code in ["++>--", ".[-]>[++]", "+[>+<-]", "[[]<.>][,]"] {
        let first = parse(code).unwrap();
        let tokens = tapevm::roundtrip::decode_prg(&first);
        assert_eq!(tapevm::command_opt::optimize_prg(&tokens).unwrap(), first);
    }
}

#[test]
fn canonical_form_is_decidable() {
    assert!(tapevm::roundtrip::is_canonical(&parse("+[>+<-]").unwrap()));
    assert!(tapevm::roundtrip::is_canonical(&parse(".[-]>[++]").unwrap()));
    // a run of 256 increments folds to a zero-delta instruction
    assert!(!tapevm::roundtrip::is_canonical(&parse(&"+".repeat(256)).unwrap()));
    // a skipped zero-delta pointer run leaves two value runs adjacent
    assert!(!tapevm::roundtrip::is_canonical(&parse("+><+").unwrap()));
    // a skipped zero-delta pointer run leaves a bare value-run loop body
    assert!(!tapevm::roundtrip::is_canonical(&parse("[+><]").unwrap()));
}

#[test]
fn non_canonical_output_breaks_the_round_trip() {
    // the three shapes the round-trip law leaves out, each shown on a
    // real optimizer output
    let zero_delta = parse(&"+".repeat(256)).unwrap();
    assert_eq!(zero_delta, vec![CommandOpt::ChVal(0)]);
    let tokens = tapevm::roundtrip::decode_prg(&zero_delta);
    assert_eq!(optimize_prg(&tokens).unwrap(), Vec::<CommandOpt>::new());

    let adjacent = parse("+><+").unwrap();
    assert_eq!(adjacent, vec![CommandOpt::ChVal(1), CommandOpt::ChVal(1)]);
    let tokens = tapevm::roundtrip::decode_prg(&adjacent);
    assert_eq!(optimize_prg(&tokens).unwrap(), vec![CommandOpt::ChVal(2)]);

    let bare_body = parse("[+><]").unwrap();
    assert_eq!(
        bare_body,
        vec![
            CommandOpt::OpenBr(3),
            CommandOpt::ChVal(1),
            CommandOpt::CloseBr(1),
        ]
    );
    let tokens = tapevm::roundtrip::decode_prg(&bare_body);
    assert_eq!(optimize_prg(&tokens).unwrap(), vec![CommandOpt::Zero]);
}
