use pult_desktop::types::RunEvent;

#[test]
fn stamp_tail_gen_sets_and_overwrites_the_generation() {
    let e = RunEvent::Line {
        run_id: "r1".to_string(),
        stream: "stdout".to_string(),
        text: "hi".to_string(),
        tail_gen: None,
    };
    let stamped = e.stamp_tail_gen(3).stamp_tail_gen(7);
    assert!(matches!(
        &stamped,
        RunEvent::Line { run_id, stream, text, tail_gen: Some(7) }
            if run_id == "r1" && stream == "stdout" && text == "hi"
    ));

    let start = RunEvent::TailStart { run_id: "r1".to_string(), tail_gen: 1 };
    assert!(matches!(start.stamp_tail_gen(9), RunEvent::TailStart { tail_gen: 9, .. }));

    let exit = RunEvent::Exit {
        run_id: "r1".to_string(),
        code: Some(2),
        stopped: true,
        crashed: false,
        tail_gen: Some(1),
    };
    assert!(matches!(
        exit.stamp_tail_gen(4),
        RunEvent::Exit { code: Some(2), stopped: true, crashed: false, tail_gen: Some(4), .. }
    ));

    let p = RunEvent::Progress { run_id: "r".into(), pct: Some(5), text: None, tail_gen: None };
    assert!(matches!(p.stamp_tail_gen(2), RunEvent::Progress { pct: Some(5), tail_gen: Some(2), .. }));
    let s = RunEvent::Status { run_id: "r".into(), text: "t".into(), tail_gen: Some(8) };
    assert!(matches!(s.stamp_tail_gen(2), RunEvent::Status { tail_gen: Some(2), .. }));
    let st = RunEvent::Step { run_id: "r".into(), k: 1, n: 2, name: "b".into(), tail_gen: None };
    assert!(matches!(st.stamp_tail_gen(2), RunEvent::Step { k: 1, n: 2, tail_gen: Some(2), .. }));
}
