use light_r::command::{Command, EngineError, Step, DEFAULT_WORKERS, PRINT_ROW_LIMIT};
use light_r::engine::Engine;
use light_r::frame::DataFrame;
use light_r::offsets::Layout;

fn frame() -> DataFrame {
    DataFrame::from_values(
        vec!["A".to_string()],
        vec!["d1".to_string(), "d2".to_string()],
        vec![1.0f64.to_bits(), 2.0f64.to_bits()],
        Layout::ColumnMajor,
    )
    .unwrap()
}

#[test]
fn lookup_knows_the_four_operations() {
    assert_eq!(Engine::lookup("load"), Some(Command::Load));
    assert_eq!(Engine::lookup("dlog"), Some(Command::Dlog));
    assert_eq!(Engine::lookup("dlog_multithread"), Some(Command::DlogMultithread));
    assert_eq!(Engine::lookup("print"), Some(Command::Print));
}

#[test]
fn lookup_knows_nothing_else() {
    assert_eq!(Engine::lookup(""), None);
    assert_eq!(Engine::lookup("Load"), None);
    assert_eq!(Engine::lookup("dlog "), None);
    assert_eq!(Engine::lookup("after"), None);
    assert_eq!(Engine::lookup("->"), None);
}

#[test]
fn unknown_command_is_turned_down() {
    let mut engine = Engine::new();
    let res = engine.execute_command("cumsum", &["1".to_string()], Some(frame()));
    assert!(matches!(res, Err(EngineError::UnknownCommand)));
    let res = engine.execute_command("cumsum", &[], None);
    assert!(matches!(res, Err(EngineError::UnknownCommand)));
}

#[test]
fn load_needs_a_path_and_no_frame() {
    let mut engine = Engine::new();
    let res = engine.execute_command("load", &[], None);
    assert!(matches!(res, Err(EngineError::MissingPath)));
    let res = engine.execute_command("load", &["a.csv".to_string(), "b".to_string()], None);
    match res {
        Ok(Step::Load { path }) => assert_eq!(path, "a.csv"),
        _ => panic!("load with a path must resolve"),
    }
}

#[test]
fn frame_operations_need_a_frame() {
    let mut engine = Engine::new();
    for name in ["dlog", "dlog_multithread", "print"] {
        let res = engine.execute_command(name, &[], None);
        assert!(matches!(res, Err(EngineError::NoFrame)));
    }
}

#[test]
fn frame_operations_hand_the_frame_on() {
    let mut engine = Engine::new();
    let want = frame().buffer;
    match engine.execute_command("dlog", &[], Some(frame())) {
        Ok(Step::Dlog { frame }) => assert_eq!(frame.buffer, want),
        _ => panic!("dlog must resolve"),
    }
    match engine.execute_command("dlog_multithread", &[], Some(frame())) {
        Ok(Step::DlogParallel { frame, max_threads }) => {
            assert_eq!(frame.buffer, want);
            assert_eq!(max_threads, DEFAULT_WORKERS);
            assert_eq!(max_threads, 4);
        }
        _ => panic!("dlog_multithread must resolve"),
    }
    match engine.execute_command("print", &[], Some(frame())) {
        Ok(Step::Print { frame }) => assert_eq!(frame.buffer, want),
        _ => panic!("print must resolve"),
    }
}

#[test]
fn worker_count_is_the_smaller_of_the_two() {
    assert_eq!(Engine::worker_count(4, 10), 4);
    assert_eq!(Engine::worker_count(4, 3), 3);
    assert_eq!(Engine::worker_count(4, 4), 4);
    assert_eq!(Engine::worker_count(0, 4), 0);
    assert_eq!(Engine::worker_count(8, 0), 0);
}

#[test]
fn large_frames_are_not_printed_in_full() {
    assert_eq!(PRINT_ROW_LIMIT, 300000);
    assert!(Engine::should_print(0));
    assert!(Engine::should_print(299999));
    assert!(!Engine::should_print(300000));
    assert!(!Engine::should_print(1000000));
}

#[test]
fn engine_errors_have_their_messages() {
    assert_eq!(EngineError::UnknownCommand.message(), "Unknown command: ");
    assert_eq!(EngineError::MissingPath.message(), "File path missing for load");
    assert_eq!(EngineError::NoFrame.message(), "No current DataFrame to process for dlog");
}

fn words(list: &[&str]) -> Vec<String> {
    list.iter().map(|s| s.to_string()).collect()
}

#[test]
fn parse_pipeline_cuts_at_bars_and_white_space() {
    assert_eq!(
        Engine::parse_pipeline("load a.csv | dlog|print"),
        vec![words(&["load", "a.csv"]), words(&["dlog"]), words(&["print"])]
    );
    assert_eq!(
        Engine::parse_pipeline("  unitscale   20\t0.1  "),
        vec![words(&["unitscale", "20", "0.1"])]
    );
}

#[test]
fn parse_pipeline_passes_over_empty_steps() {
    assert_eq!(Engine::parse_pipeline(""), Vec::<Vec<String>>::new());
    assert_eq!(Engine::parse_pipeline(" | |"), Vec::<Vec<String>>::new());
    assert_eq!(
        Engine::parse_pipeline("dlog || print |"),
        vec![words(&["dlog"]), words(&["print"])]
    );
}

#[test]
fn parsed_steps_resolve_in_order() {
    let mut engine = Engine::new();
    let steps = Engine::parse_pipeline("dlog | frobnicate 3 | print");
    assert_eq!(steps.len(), 3);
    let (command, args) = steps[0].split_first().unwrap();
    assert!(matches!(engine.execute_command(command, args, Some(frame())), Ok(Step::Dlog { .. })));
    let (command, args) = steps[1].split_first().unwrap();
    assert_eq!(args, &["3".to_string()]);
    assert!(matches!(
        engine.execute_command(command, args, Some(frame())),
        Err(EngineError::UnknownCommand)
    ));
    let (command, args) = steps[2].split_first().unwrap();
    assert!(matches!(engine.execute_command(command, args, Some(frame())), Ok(Step::Print { .. })));
}
