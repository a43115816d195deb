use testbed::commands::{arg, test_command, Arg, OutputMap, ParseError, TestCommand};

#[test]
fn arg_parse() {
    let a = "wow_hello";
    let b = "[1::amazing]";
    let c = "  [1::amazing] ";
    let d = "  pid(0) ";

    let res = arg(a);
    println!("{:?}", res);
    assert!(res == Ok(("", Arg::String("wow_hello".to_string()))));

    let res = arg(b);
    println!("{:?}", res);
    assert!(
        res == Ok((
            "",
            Arg::Param {
                index: 1,
                param: "amazing".to_string()
            }
        ))
    );

    let res = arg(c);
    println!("{:?}", res);
    assert!(
        res == Ok((
            "",
            Arg::Param {
                index: 1,
                param: "amazing".to_string()
            }
        ))
    );

    let res = arg(d);
    println!("{:?}", res);
    assert!(
        res == Ok((
            "",
            Arg::Pid(0)
        ))
    );
}

#[test]
fn command_test() {
    let spawn = "spawn 1 --stdout=append(idontknow.txt) --stderr=something ./something -f hello amazing [1::another]";
    let res = test_command(spawn);
    println!("{:?}", res);

    assert!(
        res == Ok((
            "",
            TestCommand::Spawn {
                id: 1,
                command: "./something".into(),
                args: vec![
                    Arg::String("-f".into()),
                    Arg::String("hello".into()),
                    Arg::String("amazing".into()),
                    Arg::Param {
                        index: 1,
                        param: "another".into()
                    }
                ],
                stdout: OutputMap::Append(Arg::String("idontknow.txt".into())),
                stderr: OutputMap::Create(Arg::String("something".into()))
            }
        ))
    );

    let spawn = "SPAWN 12 --stdout=append([1::files]) --stderr=append(something) ./something -f hello amazing [1::another] [200::whoknows]";
    let res = test_command(spawn);
    println!("{:?}", res);

    assert!(
        res == Ok((
            "",
            TestCommand::Spawn {
                id: 12,
                command: "./something".into(),
                args: vec![
                    Arg::String("-f".into()),
                    Arg::String("hello".into()),
                    Arg::String("amazing".into()),
                    Arg::Param {
                        index: 1,
                        param: "another".into()
                    },
                    Arg::Param {
                        index: 200,
                        param: "whoknows".into()
                    },
                ],
                stdout: OutputMap::Append(Arg::Param {
                    index: 1,
                    param: "files".into()
                }),
                stderr: OutputMap::Append(Arg::String("something".into()))
            }
        ))
    );

    let kill = "kill 12";
    let res = test_command(kill);
    println!("{:?}", res);

    assert!(res == Ok(("", TestCommand::Kill(12))));

    let sleep = "sleep 12";
    let res = test_command(sleep);
    println!("{:?}", res);

    assert!(res == Ok(("", TestCommand::Sleep(12))));

    let wait = "wait 12 10000 100";
    let res = test_command(wait);
    println!("{:?}", res);

    assert!(
        res == Ok((
            "",
            TestCommand::WaitFor {
                id: 12,
                timeout: Some((10000, 100))
            }
        ))
    );

    let wait = "wait 12";
    let res = test_command(wait);
    println!("{:?}", res);

    assert!(
        res == Ok((
            "",
            TestCommand::WaitFor {
                id: 12,
                timeout: None
            }
        ))
    );
}

#[test]
fn an_argument_ends_at_the_first_blank() {
    assert_eq!(arg("one two"), Ok((" two", Arg::String("one".to_string()))));
    assert_eq!(arg("\t tabbed\u{a0}"), Ok(("", Arg::String("tabbed".to_string()))));
    assert_eq!(arg("[abc"), Ok(("", Arg::String("[abc".to_string()))));
    assert_eq!(arg("[]"), Ok(("", Arg::String("[]".to_string()))));
    assert_eq!(arg("pid()"), Ok(("", Arg::String("pid()".to_string()))));
}

#[test]
fn arguments_that_are_not_of_the_language_are_refused() {
    for bad in ["", "   ", "[1::a] x", "[1:a]", "[x::a]", "[1::]", "[1::a b]", "pid(x)", "pid(1)2", "pid(1x)"] {
        assert_eq!(arg(bad), Err(ParseError), "{:?}", bad);
    }
    assert_eq!(arg("[99999999999999999999::a]"), Err(ParseError));
    assert_eq!(
        arg("[18446744073709551615::a]"),
        Ok(("", Arg::Param { index: usize::MAX, param: "a".to_string() }))
    );
}

#[test]
fn lines_that_are_not_of_the_language_are_refused() {
    for bad in ["", "kill", "kill x", "kill 1 2", "Kill 1", "sleep -1", "wait 1 2", "wait 1 2 3 4", "spawn 1", "spawn 1 ", "spawn x run", "killer 1"] {
        assert_eq!(test_command(bad), Err(ParseError), "{:?}", bad);
    }
}

#[test]
fn a_later_option_replaces_an_earlier_one() {
    let res = test_command("  spawn 3   --stderr=print --stdout=a  --stdout=pid(4) run\t[2::x]  end ");
    assert_eq!(
        res,
        Ok((
            "",
            TestCommand::Spawn {
                id: 3,
                command: "run\t[2::x]".to_string(),
                args: vec![Arg::String("end".to_string())],
                stdout: OutputMap::Create(Arg::Pid(4)),
                stderr: OutputMap::Print,
            }
        ))
    );
}

#[test]
fn an_option_that_cannot_be_read_is_the_command() {
    let res = test_command("spawn 1 --stdout=append([x]) run");
    assert_eq!(
        res,
        Ok((
            "",
            TestCommand::Spawn {
                id: 1,
                command: "--stdout=append([x])".to_string(),
                args: vec![Arg::String("run".to_string())],
                stdout: OutputMap::Print,
                stderr: OutputMap::Print,
            }
        ))
    );
    assert_eq!(OutputMap::default(), OutputMap::Print);
}
