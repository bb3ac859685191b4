use print3rs::commander::{
    write_macro, Action, Commander, Response, CONNECTING, INFINITE_MACRO, NOT_CONNECTED,
    NO_MQTT, NO_SUCH_MACRO, UNSUPPORTED,
};
use print3rs::commands::parse_command;
use print3rs::connect::OwnedConnection;
use print3rs::help::{FULL_HELP, PRINT_HELP};
use print3rs::tasks::{gcode_lines, BackgroundTask, Repeater, Tasks};

fn run(engine: &mut Commander<u32>, line: &str, connected: bool) -> Vec<Action<u32>> {
    engine.dispatch(&parse_command(line.as_bytes()), connected).unwrap()
}

fn fail(engine: &mut Commander<u32>, line: &str, connected: bool) -> Vec<u8> {
    engine.dispatch(&parse_command(line.as_bytes()), connected).unwrap_err().0
}

fn outputs(actions: &[Action<u32>]) -> Vec<String> {
    actions
        .iter()
        .map(|a| match a {
            Action::Respond(Response::Output(text)) => String::from_utf8(text.clone()).unwrap(),
            other => panic!("unexpected action {:?}", other),
        })
        .collect()
}

fn task(description: &'static str, handle: u32) -> BackgroundTask<u32> {
    BackgroundTask { description, abort_handle: handle }
}

#[test]
fn clear_and_quit_are_handed_on() {
    let mut engine: Commander<u32> = Commander::new();
    assert!(matches!(run(&mut engine, "clear", false)[..], [Action::Respond(Response::Clear)]));
    assert!(matches!(run(&mut engine, "quit", false)[..], [Action::Respond(Response::Quit)]));
    assert!(matches!(run(&mut engine, "exit", true)[..], [Action::Respond(Response::Quit)]));
}

#[test]
fn gcodes_are_expanded_and_sent_as_a_task() {
    let mut engine: Commander<u32> = Commander::new();
    assert!(run(&mut engine, "macro home G28;G90", true).is_empty());
    let actions = run(&mut engine, "M105", true);
    match &actions[..] {
        [Action::SendGcodes { name, codes }] => {
            assert_eq!(name, b"gcodes_0");
            assert_eq!(codes, &vec![b"M105".to_vec()]);
        }
        other => panic!("unexpected {:?}", other),
    }
    let actions = run(&mut engine, "send g1 x5;M114", true);
    match &actions[..] {
        [Action::SendGcodes { name, codes }] => {
            assert_eq!(name, b"gcodes_1");
            assert_eq!(codes, &vec![b"G1 X5".to_vec(), b"M114".to_vec()]);
        }
        other => panic!("unexpected {:?}", other),
    }
    assert_eq!(engine.batches, 2);
}

#[test]
fn commands_for_a_device_fail_without_one() {
    let mut engine: Commander<u32> = Commander::new();
    for line in ["G28", "print a.gcode", "log temps T:{t}", "repeat r M105"] {
        assert_eq!(fail(&mut engine, line, false), NOT_CONNECTED.as_bytes());
    }
    assert_eq!(engine.batches, 0);
}

#[test]
fn tasks_are_started_by_the_program() {
    let mut engine: Commander<u32> = Commander::new();
    match &run(&mut engine, "print benchy.gcode", true)[..] {
        [Action::PrintFile { name }] => assert_eq!(name, b"benchy.gcode"),
        other => panic!("unexpected {:?}", other),
    }
    match &run(&mut engine, "repeat poll M105;M114", true)[..] {
        [Action::StartRepeat { name, codes }] => {
            assert_eq!(name, b"poll");
            assert_eq!(codes, &vec![b"M105".to_vec(), b"M114".to_vec()]);
        }
        other => panic!("unexpected {:?}", other),
    }
    match &run(&mut engine, "log temps T:{hotend} B:{bed}", true)[..] {
        [Action::StartLog { name, header, parser }] => {
            assert_eq!(name, b"temps");
            assert_eq!(header, b"hotend,bed\n");
            assert_eq!(parser.parse(b"T:210.5 B:60"), Some(vec![b"210.5".to_vec(), b"60".to_vec()]));
        }
        other => panic!("unexpected {:?}", other),
    }
}

#[test]
fn tasks_are_listed_and_stopped() {
    let mut engine: Commander<u32> = Commander::new();
    engine.tasks.insert(b"benchy.gcode".to_vec(), task("print", 1));
    engine.tasks.insert(b"temps".to_vec(), task("log", 2));
    assert_eq!(
        outputs(&run(&mut engine, "tasks", true)),
        vec!["benchy.gcode\tprint\n", "temps\tlog\n"]
    );
    match &run(&mut engine, "stop benchy.gcode", true)[..] {
        [Action::Abort(ended)] => {
            assert_eq!(ended.len(), 1);
            assert_eq!(ended[0].abort_handle, 1);
        }
        other => panic!("unexpected {:?}", other),
    }
    assert!(run(&mut engine, "stop benchy.gcode", true).is_empty());
    assert_eq!(outputs(&run(&mut engine, "tasks", false)), vec!["temps\tlog\n"]);
}

#[test]
fn macros_are_defined_listed_and_deleted() {
    let mut engine: Commander<u32> = Commander::new();
    assert!(run(&mut engine, "macro home G28;G90", false).is_empty());
    let nested = print3rs::commands::Command::Macro(b"start", vec![b"home", b"M106"]);
    assert!(engine.dispatch(&nested, false).unwrap().is_empty());
    assert_eq!(
        outputs(&run(&mut engine, "macros", false)),
        vec!["HOME: G28;G90\n", "START: G28;G90;M106\n"]
    );
    assert!(run(&mut engine, "delmacro Home", false).is_empty());
    assert_eq!(outputs(&run(&mut engine, "macros", false)), vec!["START: G28;G90;M106\n"]);
    assert_eq!(fail(&mut engine, "delmacro home", false), NO_SUCH_MACRO.as_bytes());
    assert_eq!(write_macro(b"X", &vec![]), b"X: \n".to_vec());
}

#[test]
fn macro_cycle() {
    let mut engine: Commander<u32> = Commander::new();
    assert!(engine.macros.add(b"zero", &[b"one", b"two", b"zero"]).is_ok());
    assert!(engine.macros.add(b"one", &[b"zero", b"one", b"two"]).is_err());
    let mut engine: Commander<u32> = Commander::new();
    engine.macros.add(b"loop", &[b"loop"]).unwrap();
    let before = engine.macros.iter().len();
    let actions = engine
        .dispatch(&print3rs::commands::Command::Macro(b"again", vec![b"loop"]), false)
        .unwrap();
    match &actions[..] {
        [Action::Respond(Response::Error(e))] => assert_eq!(e.0, INFINITE_MACRO.as_bytes()),
        other => panic!("unexpected {:?}", other),
    }
    assert_eq!(engine.macros.iter().len(), before);
    assert!(engine.macros.get(b"again").is_none());
}

#[test]
fn connecting_ends_every_task() {
    let mut engine: Commander<u32> = Commander::new();
    engine.tasks.insert(b"a".to_vec(), task("print", 1));
    engine.tasks.insert(b"b".to_vec(), task("repeat", 2));
    match &run(&mut engine, "connect serial /dev/ttyACM0", false)[..] {
        [Action::Abort(ended), Action::Connect(connection)] => {
            assert_eq!(ended.iter().map(|t| t.abort_handle).collect::<Vec<_>>(), vec![1, 2]);
            assert_eq!(
                connection,
                &OwnedConnection::Serial { port: b"/dev/ttyACM0".to_vec(), baud: None }
            );
        }
        other => panic!("unexpected {:?}", other),
    }
    assert_eq!(engine.tasks.len(), 0);
    engine.tasks.insert(b"c".to_vec(), task("log", 3));
    match &run(&mut engine, "connect", true)[..] {
        [Action::Abort(ended), Action::Respond(Response::Output(text)), Action::Connect(OwnedConnection::Auto)] =>
        {
            assert_eq!(ended.len(), 1);
            assert_eq!(text, CONNECTING.as_bytes());
        }
        other => panic!("unexpected {:?}", other),
    }
    engine.tasks.insert(b"d".to_vec(), task("log", 4));
    assert_eq!(fail(&mut engine, "connect mqtt broker", true), NO_MQTT.as_bytes());
    assert_eq!(engine.tasks.len(), 1);
    match &run(&mut engine, "disconnect", true)[..] {
        [Action::Abort(ended), Action::Disconnect] => assert_eq!(ended.len(), 1),
        other => panic!("unexpected {:?}", other),
    }
    assert_eq!(engine.tasks.len(), 0);
    engine.tasks.insert(b"e".to_vec(), task("log", 5));
    assert_eq!(engine.set_printer().len(), 1);
    assert_eq!(engine.tasks.len(), 0);
}

#[test]
fn help_version_and_errors() {
    let mut engine: Commander<u32> = Commander::new();
    assert_eq!(outputs(&run(&mut engine, "help", false)), vec![FULL_HELP]);
    assert_eq!(outputs(&run(&mut engine, "help  print ", false)), vec![PRINT_HELP]);
    assert_eq!(outputs(&run(&mut engine, "version", false)), vec!["0.1.0"]);
    match &run(&mut engine, "frobnicate", true)[..] {
        [Action::Respond(Response::Error(e))] => assert_eq!(e.0, UNSUPPORTED.as_bytes()),
        other => panic!("unexpected {:?}", other),
    }
}

#[test]
fn registry_keeps_one_task_per_name() {
    let mut tasks: Tasks<u32> = Tasks::new();
    assert!(tasks.insert(b"a".to_vec(), task("print", 1)).is_none());
    assert_eq!(tasks.insert(b"a".to_vec(), task("log", 2)).unwrap().abort_handle, 1);
    assert_eq!(tasks.len(), 1);
    assert_eq!(tasks.list(), vec![b"a\tlog\n".to_vec()]);
    assert!(tasks.remove(b"b").is_none());
    assert_eq!(tasks.remove(b"a").unwrap().abort_handle, 2);
    assert!(tasks.list().is_empty());
    tasks.insert(b"x".to_vec(), task("gcodes", 3));
    tasks.insert(b"y".to_vec(), task("gcodes", 4));
    assert_eq!(tasks.clear().len(), 2);
    assert_eq!(tasks.len(), 0);
}

#[test]
fn file_lines_lose_comments_and_empty_lines() {
    let text = b"; generated\nG28 ; home\r\n\nG1 X5\r\n;\nM84;off;really\n\r\nG90";
    let expected: Vec<&[u8]> = vec![b"G28 ", b"G1 X5", b"M84", b"G90"];
    assert_eq!(gcode_lines(text), expected);
    assert_eq!(gcode_lines(b""), Vec::<&[u8]>::new());
    assert_eq!(gcode_lines(b"\n\n"), Vec::<&[u8]>::new());
    let expected: Vec<&[u8]> = vec![b"G1\r"];
    assert_eq!(gcode_lines(b"G1\r"), expected);
    let expected: Vec<&[u8]> = vec![b"\r"];
    assert_eq!(gcode_lines(b"\r\r\n"), expected);
}

#[test]
fn repeater_cycles() {
    let mut cycle = Repeater::new(vec![b"M105".to_vec(), b"M114".to_vec(), b"G4 S1".to_vec()]);
    let mut sent = Vec::new();
    for _ in 0..7 {
        sent.push(cycle.advance().unwrap().clone());
    }
    assert_eq!(sent[0], b"M105");
    assert_eq!(sent[1], b"M114");
    assert_eq!(sent[2], b"G4 S1");
    assert_eq!(sent[3], b"M105");
    assert_eq!(sent[6], b"M105");
    let mut empty = Repeater::new(vec![]);
    assert!(empty.advance().is_none());
}
