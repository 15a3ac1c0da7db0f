use birl::interpreter::{Command, Environment, JumpCond, Section, SourceUnit, StepEvent};
use birl::value::ValueType;
use birl::Error;

fn s(t: &str) -> String {
    String::from(t)
}

fn section(name: &str, commands: Vec<Command>) -> Section {
    Section {
        name: s(name),
        commands,
    }
}

fn run(sections: Vec<Section>, inputs: Vec<String>) -> Result<Vec<String>, Error> {
    let mut env = Environment::new(s("SHOW"));
    env.interpret(SourceUnit { sections }).unwrap();
    env.start_program(inputs, 10_000)
}

#[test]
fn compare_equal_takes_equal_jump_not_notequal() {
    // a = 5, b = 5: flag is Equal; JumpIfNotEqual must NOT transfer,
    // JumpIfEqual must transfer to its target.
    let outs = run(
        vec![
            section(
                "SHOW",
                vec![
                    Command::DeclWV(s("a"), ValueType::Number, s("5")),
                    Command::DeclWV(s("b"), ValueType::Number, s("5")),
                    Command::Cmp(s("a"), s("b")),
                    Command::CondJump(JumpCond::NotEqual, s("DIFF")),
                    Command::CondJump(JumpCond::Equal, s("SAME")),
                    Command::Println(s("\"fell through\"")),
                    Command::Quit,
                ],
            ),
            section("SAME", vec![Command::Println(s("\"same\"")), Command::Quit]),
            section("DIFF", vec![Command::Println(s("\"diff\"")), Command::Quit]),
        ],
        vec![],
    )
    .unwrap();
    assert_eq!(outs, vec![s("same\n")]);
}

#[test]
fn compare_less_takes_less_jump_not_greater() {
    // a = 5, b = 7: flag is Less; JumpIfLess transfers, JumpIfGreater not.
    let outs = run(
        vec![
            section(
                "SHOW",
                vec![
                    Command::DeclWV(s("a"), ValueType::Number, s("5")),
                    Command::DeclWV(s("b"), ValueType::Number, s("7")),
                    Command::Cmp(s("a"), s("b")),
                    Command::CondJump(JumpCond::Greater, s("BIG")),
                    Command::CondJump(JumpCond::Less, s("SMALL")),
                    Command::Println(s("\"fell through\"")),
                    Command::Quit,
                ],
            ),
            section("SMALL", vec![Command::Println(s("\"less\"")), Command::Quit]),
            section("BIG", vec![Command::Println(s("\"greater\"")), Command::Quit]),
        ],
        vec![],
    )
    .unwrap();
    assert_eq!(outs, vec![s("less\n")]);
}

#[test]
fn strings_compare_lexicographically() {
    let outs = run(
        vec![
            section(
                "SHOW",
                vec![
                    Command::Cmp(s("\"abc\""), s("\"abd\"")),
                    Command::CondJump(JumpCond::Less, s("L")),
                    Command::Quit,
                ],
            ),
            section("L", vec![Command::Println(s("\"lex\"")), Command::Quit]),
        ],
        vec![],
    )
    .unwrap();
    assert_eq!(outs, vec![s("lex\n")]);
}

#[test]
fn conditional_jump_before_compare_is_fatal() {
    let err = run(
        vec![section(
            "SHOW",
            vec![Command::CondJump(JumpCond::Equal, s("SHOW"))],
        )],
        vec![],
    )
    .unwrap_err();
    assert_eq!(err, Error::MissingComparison);
}

#[test]
fn comparing_incompatible_types_is_fatal() {
    let err = run(
        vec![section(
            "SHOW",
            vec![Command::Cmp(s("1"), s("\"a\""))],
        )],
        vec![],
    )
    .unwrap_err();
    assert_eq!(err, Error::TypeMismatchOnComparison);
}

#[test]
fn duplicate_declaration_is_fatal() {
    let err = run(
        vec![section(
            "SHOW",
            vec![
                Command::Decl(s("x"), ValueType::Number),
                Command::Decl(s("x"), ValueType::Str),
            ],
        )],
        vec![],
    )
    .unwrap_err();
    assert_eq!(err, Error::DuplicateDeclaration);
}

#[test]
fn assignment_to_undeclared_is_fatal() {
    let err = run(
        vec![section("SHOW", vec![Command::Move(s("x"), s("1"))])],
        vec![],
    )
    .unwrap_err();
    assert_eq!(err, Error::UndeclaredVariable);
}

#[test]
fn assignment_type_mismatch_is_fatal() {
    let err = run(
        vec![section(
            "SHOW",
            vec![
                Command::Decl(s("x"), ValueType::Number),
                Command::Move(s("x"), s("\"a\"")),
            ],
        )],
        vec![],
    )
    .unwrap_err();
    assert_eq!(err, Error::TypeMismatchOnAssignment);
    let err = run(
        vec![section(
            "SHOW",
            vec![Command::DeclWV(s("x"), ValueType::Str, s("1"))],
        )],
        vec![],
    )
    .unwrap_err();
    assert_eq!(err, Error::TypeMismatchOnDeclaration);
}

#[test]
fn quit_halts_immediately() {
    // commands after Quit in the same section must never execute
    let outs = run(
        vec![section(
            "SHOW",
            vec![
                Command::Println(s("\"a\"")),
                Command::Quit,
                Command::Println(s("\"b\"")),
            ],
        )],
        vec![],
    )
    .unwrap();
    assert_eq!(outs, vec![s("a\n")]);
}

#[test]
fn falling_off_the_end_halts() {
    let outs = run(
        vec![section("SHOW", vec![Command::Print(s("\"x\""))])],
        vec![],
    )
    .unwrap();
    assert_eq!(outs, vec![s("x")]);
}

#[test]
fn move_overwrites_and_clear_removes() {
    let err = run(
        vec![section(
            "SHOW",
            vec![
                Command::DeclWV(s("x"), ValueType::Number, s("1")),
                Command::Move(s("x"), s("2")),
                Command::Println(s("x")),
                Command::Clear(s("x")),
                Command::Println(s("x")),
            ],
        )],
        vec![],
    );
    // the second Println finds x gone
    assert_eq!(err.unwrap_err(), Error::UnknownSymbol);
    let outs = run(
        vec![section(
            "SHOW",
            vec![
                Command::DeclWV(s("x"), ValueType::Number, s("1")),
                Command::Move(s("x"), s("x + 1")),
                Command::Println(s("x")),
                Command::Clear(s("x")),
                Command::Decl(s("x"), ValueType::Str),
                Command::Quit,
            ],
        )],
        vec![],
    )
    .unwrap();
    assert_eq!(outs, vec![s("2\n")]);
}

#[test]
fn clear_of_undeclared_is_fatal() {
    let err = run(
        vec![section("SHOW", vec![Command::Clear(s("x"))])],
        vec![],
    )
    .unwrap_err();
    assert_eq!(err, Error::UndeclaredVariable);
}

#[test]
fn unconditional_jump_transfers() {
    let outs = run(
        vec![
            section(
                "SHOW",
                vec![Command::Jump(s("OTHER")), Command::Println(s("\"skipped\""))],
            ),
            section("OTHER", vec![Command::Println(s("\"there\"")), Command::Quit]),
        ],
        vec![],
    )
    .unwrap();
    assert_eq!(outs, vec![s("there\n")]);
}

#[test]
fn jump_to_unknown_section_is_fatal() {
    let err = run(
        vec![section("SHOW", vec![Command::Jump(s("NOWHERE"))])],
        vec![],
    )
    .unwrap_err();
    assert_eq!(err, Error::UnknownSection);
}

#[test]
fn input_stores_a_line() {
    let outs = run(
        vec![section(
            "SHOW",
            vec![
                Command::Decl(s("name"), ValueType::Str),
                Command::Input(s("name")),
                Command::Println(s("name")),
                Command::Quit,
            ],
        )],
        vec![s("world")],
    )
    .unwrap();
    assert_eq!(outs, vec![s("world\n")]);
}

#[test]
fn input_up_stores_then_jumps() {
    let outs = run(
        vec![
            section(
                "SHOW",
                vec![
                    Command::Decl(s("name"), ValueType::Str),
                    Command::InputUp(s("name"), s("GREET")),
                    Command::Println(s("\"not reached\"")),
                ],
            ),
            section("GREET", vec![Command::Println(s("name")), Command::Quit]),
        ],
        vec![s("hi")],
    )
    .unwrap();
    assert_eq!(outs, vec![s("hi\n")]);
}

#[test]
fn input_with_exhausted_queue_reads_empty() {
    let outs = run(
        vec![section(
            "SHOW",
            vec![
                Command::Decl(s("l"), ValueType::Str),
                Command::Input(s("l")),
                Command::Println(s("\"<\" + l + \">\"")),
                Command::Quit,
            ],
        )],
        vec![],
    )
    .unwrap();
    assert_eq!(outs, vec![s("<>\n")]);
}

#[test]
fn duplicate_entry_section_across_units_is_fatal() {
    let mut env = Environment::new(s("SHOW"));
    env.interpret(SourceUnit {
        sections: vec![section("SHOW", vec![Command::Quit])],
    })
    .unwrap();
    let err = env
        .interpret(SourceUnit {
            sections: vec![section("SHOW", vec![Command::Quit])],
        })
        .unwrap_err();
    assert_eq!(err, Error::DuplicateEntrySection);
    // a unit with other sections still loads
    env.interpret(SourceUnit {
        sections: vec![section("HELPER", vec![Command::Quit])],
    })
    .unwrap();
}

#[test]
fn duplicate_entry_section_in_one_unit_is_fatal() {
    let mut env = Environment::new(s("SHOW"));
    let err = env
        .interpret(SourceUnit {
            sections: vec![
                section("SHOW", vec![Command::Quit]),
                section("SHOW", vec![Command::Quit]),
            ],
        })
        .unwrap_err();
    assert_eq!(err, Error::DuplicateEntrySection);
}

#[test]
fn missing_entry_section_is_fatal() {
    let mut env = Environment::new(s("SHOW"));
    env.interpret(SourceUnit {
        sections: vec![section("OTHER", vec![Command::Quit])],
    })
    .unwrap();
    let err = env.start_program(vec![], 100).unwrap_err();
    assert_eq!(err, Error::MissingEntrySection);
}

#[test]
fn custom_entry_section_name() {
    let mut env = Environment::new(s("MAIN"));
    env.interpret(SourceUnit {
        sections: vec![section(
            "MAIN",
            vec![Command::Println(s("\"custom\"")), Command::Quit],
        )],
    })
    .unwrap();
    let outs = env.start_program(vec![], 100).unwrap();
    assert_eq!(outs, vec![s("custom\n")]);
}

#[test]
fn step_by_step_driving() {
    let mut env = Environment::new(s("SHOW"));
    env.interpret(SourceUnit {
        sections: vec![section(
            "SHOW",
            vec![
                Command::Decl(s("l"), ValueType::Str),
                Command::Input(s("l")),
                Command::Print(s("l")),
                Command::Quit,
            ],
        )],
    })
    .unwrap();
    env.start().unwrap();
    assert!(matches!(env.step().unwrap(), StepEvent::Proceeded));
    assert!(matches!(env.step().unwrap(), StepEvent::AwaitInput));
    env.supply_input(s("line")).unwrap();
    match env.step().unwrap() {
        StepEvent::Printed(t) => assert_eq!(t, "line"),
        _ => panic!("expected output"),
    }
    assert!(matches!(env.step().unwrap(), StepEvent::Halted));
    assert!(matches!(env.step().unwrap(), StepEvent::Halted));
}
