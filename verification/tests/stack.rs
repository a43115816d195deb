use testbed::commands::TestCommand;
use testbed::stack::{Cursor, Instruction, LoopIdx, Next, Params, ProcessId, Stack};

fn begin(id: &str, param: &str) -> Instruction {
    Instruction::BeginFor { id: id.to_string(), param: param.to_string() }
}

#[test]
fn the_innermost_loop_of_a_name_gives_its_step() {
    let stack = Stack(vec![
        LoopIdx { id: "i".to_string(), idx: 1 },
        LoopIdx { id: "j".to_string(), idx: 2 },
        LoopIdx { id: "i".to_string(), idx: 3 },
    ]);
    assert_eq!(stack.get_idx("i"), Some(3));
    assert_eq!(stack.get_idx("j"), Some(2));
    assert_eq!(stack.get_idx("k"), None);
    assert_eq!(Stack::default().get_idx("i"), None);
}

#[test]
fn parameters_are_found_by_name() {
    let params = Params(vec![
        ("hosts".to_string(), vec!["a".to_string(), "b".to_string()]),
        ("ports".to_string(), vec![]),
        ("hosts".to_string(), vec![]),
    ]);
    assert_eq!(params.get("hosts").unwrap().len(), 2);
    assert_eq!(params.get("ports").unwrap().len(), 0);
    assert!(params.get("users").is_none());
}

#[test]
fn a_script_runs_its_loops_once_for_each_value() {
    let params = Params(vec![
        ("hosts".to_string(), vec!["a".to_string(), "b".to_string()]),
        ("ports".to_string(), vec!["1".to_string(), "2".to_string(), "3".to_string()]),
    ]);
    let script = vec![
        Instruction::Command(TestCommand::Sleep(0)),
        begin("h", "hosts"),
        begin("p", "ports"),
        Instruction::Command(TestCommand::Kill(1)),
        Instruction::NextLoop,
        Instruction::Command(TestCommand::Kill(2)),
        Instruction::NextLoop,
    ];
    let mut cursor = Cursor::new();
    let mut seen = vec![];
    loop {
        match cursor.next(&script, &params) {
            Next::End => break,
            Next::Moved => {}
            Next::Run(TestCommand::Kill(id)) => {
                let at: Vec<usize> = cursor.stack.0.iter().map(|l| l.idx).collect();
                seen.push((*id, at));
            }
            Next::Run(_) => {}
            Next::MissingParam(name) => panic!("missing {name}"),
        }
    }
    assert_eq!(
        seen,
        vec![
            (1, vec![0, 0]),
            (1, vec![0, 1]),
            (1, vec![0, 2]),
            (2, vec![0]),
            (1, vec![1, 0]),
            (1, vec![1, 1]),
            (1, vec![1, 2]),
            (2, vec![1]),
        ]
    );
    assert_eq!(cursor.instruction_idx, 7);
    assert!(cursor.stack.0.is_empty() && cursor.loop_points.is_empty());
}

#[test]
fn a_script_stops_at_what_it_cannot_run() {
    let params = Params::default();
    let script = vec![begin("h", "hosts")];
    let mut cursor = Cursor::new();
    assert!(matches!(cursor.next(&script, &params), Next::MissingParam("hosts")));
    assert_eq!(cursor.instruction_idx, 0);
    let stray = vec![Instruction::NextLoop];
    assert!(matches!(Cursor::new().next(&stray, &params), Next::End));
    assert!(matches!(Cursor::new().next(&vec![], &params), Next::End));
}

#[test]
fn a_process_is_shown_with_the_steps_of_its_loops() {
    let inside = ProcessId {
        loop_idx: Stack(vec![LoopIdx { id: "h".to_string(), idx: 1 }, LoopIdx { id: "p".to_string(), idx: 20 }]),
        id: 7,
    };
    assert_eq!(inside.label(), "[h(1), p(20)]: 7");
    assert_eq!(ProcessId { loop_idx: Stack::default(), id: 0 }.label(), "[]: 0");
}
