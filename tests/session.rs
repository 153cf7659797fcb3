use trainer_bot::commands::Command;
use trainer_bot::dialogue::{
    dispatch, exit, help, receive_ans, receive_file, receive_type, report, run_test, start, Effect,
    Event, State, Step, Upload,
};
use trainer_bot::record::{Field, Record, Tasks};

fn record(fields: &[(&str, &[&str])], comment: Option<&str>) -> Record {
    Record {
        fields: fields
            .iter()
            .map(|(n, vs)| Field {
                name: n.to_string(),
                values: vs.iter().map(|v| v.to_string()).collect(),
            })
            .collect(),
        comment: comment.map(|c| c.to_string()),
    }
}

fn color_tasks() -> Tasks {
    Tasks::new(vec![record(&[("color", &["red"])], None)])
}

fn texts(step: &Step) -> Vec<String> {
    step.effects
        .iter()
        .filter_map(|e| match e {
            Effect::Text(t) => Some(t.clone()),
            _ => None,
        })
        .collect()
}

fn message(command: Option<Command>, text: Option<&str>, upload: Option<Upload>) -> Event {
    Event::Message { command, text: text.map(|t| t.to_string()), upload }
}

fn press(data: &str) -> Event {
    Event::Button { data: Some(data.to_string()) }
}

fn selection(tasks: Tasks) -> State {
    let step = run_test(tasks, None, 0);
    step.state
}

#[test]
fn begin_asks_for_file() {
    let step = dispatch(State::Idle, message(Some(Command::Start), None, None), 0);
    assert!(matches!(step.state, State::AwaitingFile));
    assert_eq!(texts(&step), vec!["Давай начнем! Пришли .csv файл с заданиями, чтобы начать."]);
    assert!(matches!(start().state, State::AwaitingFile));
}

#[test]
fn help_while_idle() {
    let step = dispatch(State::Idle, message(Some(Command::Help), None, None), 0);
    assert!(matches!(step.state, State::Idle));
    assert!(matches!(step.effects[..], [Effect::Help]));
    assert!(matches!(help().effects[..], [Effect::Help]));
}

#[test]
fn plain_text_while_idle_gets_a_hint() {
    let step = dispatch(State::Idle, message(None, Some("hi"), None), 0);
    assert!(matches!(step.state, State::Idle));
    assert_eq!(texts(&step), vec!["Отправь /start, чтобы начать тренировку."]);
}

#[test]
fn zero_row_file_keeps_waiting() {
    let step = dispatch(State::AwaitingFile, message(None, None, Some(Upload::Loaded(vec![]))), 0);
    assert!(matches!(step.state, State::AwaitingFile));
    assert_eq!(texts(&step), vec!["В файле нет заданий"]);
}

#[test]
fn unreadable_file_keeps_waiting() {
    let step = receive_file(Some(Upload::Unreadable));
    assert!(matches!(step.state, State::AwaitingFile));
    assert_eq!(texts(&step), vec!["Не удалось прочитать файл"]);
}

#[test]
fn message_without_file_asks_for_one() {
    let step = dispatch(State::AwaitingFile, message(Some(Command::Help), Some("/help"), None), 0);
    assert!(matches!(step.state, State::AwaitingFile));
    assert_eq!(texts(&step), vec!["Пожалуйста, отправьте файл."]);
}

#[test]
fn file_with_tasks_loads_them() {
    let upload = Upload::Loaded(vec![record(&[("color", &["red"])], None)]);
    let step = dispatch(State::AwaitingFile, message(None, None, Some(upload)), 0);
    match &step.state {
        State::PresentingTask { tasks, answer } => {
            assert_eq!(tasks.len(), 1);
            assert!(tasks.current.is_none());
            assert!(answer.is_none());
        }
        _ => panic!("tasks not loaded"),
    }
    assert_eq!(texts(&step), vec!["Файл загружен! Напишите что-нибудь, чтобы начать тренировку."]);
}

#[test]
fn first_message_draws_a_task() {
    let tasks = Tasks::new(vec![
        record(&[("color", &["red"])], None),
        record(&[("shape", &["round"]), ("size", &["big", "small"])], None),
    ]);
    let state = State::PresentingTask { tasks, answer: None };
    let step = dispatch(state, message(None, Some("go"), None), 7);
    match &step.state {
        State::AwaitingFieldSelection { tasks, answer } => {
            assert_eq!(tasks.current, Some(1));
            assert_eq!(answer.get_fields(), vec!["shape", "size"]);
            assert_eq!(answer.field_len("size"), 2);
        }
        _ => panic!("no field choice"),
    }
    assert_eq!(texts(&step), vec!["shape: \nsize: , \n"]);
    match &step.effects[1] {
        Effect::Choices { text, rows } => {
            assert_eq!(text, "Выбери категорию:");
            assert_eq!(rows.len(), 2);
            let first: Vec<(String, String)> =
                rows[0].iter().map(|b| (b.label.clone(), b.data.clone())).collect();
            assert_eq!(
                first,
                vec![
                    ("shape".to_string(), "shape".to_string()),
                    ("size".to_string(), "size".to_string())
                ]
            );
            let second: Vec<(String, String)> =
                rows[1].iter().map(|b| (b.label.clone(), b.data.clone())).collect();
            assert_eq!(
                second,
                vec![
                    ("Сдать".to_string(), "done".to_string()),
                    ("Пропустить".to_string(), "skip".to_string())
                ]
            );
        }
        _ => panic!("no choices"),
    }
}

#[test]
fn picking_a_field_asks_for_its_value() {
    let state = selection(color_tasks());
    let step = dispatch(state, press("color"), 0);
    match &step.state {
        State::AwaitingFieldValue { field, .. } => assert_eq!(field, "color"),
        _ => panic!("no field value awaited"),
    }
    assert_eq!(texts(&step), vec!["Введи color:"]);
    assert!(matches!(step.effects.last(), Some(Effect::AnswerCallback)));
}

#[test]
fn non_text_answer_asks_for_text() {
    let state = selection(color_tasks());
    let state = dispatch(state, press("color"), 0).state;
    let step = dispatch(state, message(None, None, None), 0);
    assert!(matches!(step.state, State::AwaitingFieldValue { .. }));
    assert_eq!(texts(&step), vec!["Введите текст"]);
}

fn answer_and_submit(value: &str) -> Step {
    let state = selection(color_tasks());
    let state = dispatch(state, press("color"), 0).state;
    let state = dispatch(state, message(None, Some(value), None), 0).state;
    dispatch(state, press("done"), 0)
}

#[test]
fn right_answer_is_all_correct() {
    let step = answer_and_submit("red");
    assert!(matches!(step.state, State::PresentingTask { answer: None, .. }));
    assert_eq!(texts(&step), vec!["✅ Все правильно"]);
}

#[test]
fn wrong_answer_shows_one_mismatch() {
    let step = answer_and_submit("blue");
    assert_eq!(texts(&step), vec!["color:\n✅ red, ❌ blue\n"]);
}

#[test]
fn stored_answer_reprompts_selection() {
    let state = selection(color_tasks());
    let state = dispatch(state, press("color"), 0).state;
    let step = dispatch(state, message(None, Some(" blue "), None), 0);
    assert_eq!(texts(&step), vec!["color: blue\n"]);
    match &step.state {
        State::AwaitingFieldSelection { answer, .. } => assert_eq!(answer.render(), "color: blue\n"),
        _ => panic!("no field choice"),
    }
}

#[test]
fn two_value_field_reports_two_pairs() {
    let tasks = Tasks::new(vec![record(&[("pair", &["a", "b"])], None)]);
    let state = selection(tasks);
    let state = dispatch(state, press("pair"), 0).state;
    let state = dispatch(state, message(None, Some("x"), None), 0).state;
    match &state {
        State::AwaitingFieldSelection { answer, .. } => {
            assert_eq!(answer.fields[0].values, vec!["".to_string(), "x".to_string()])
        }
        _ => panic!("no field choice"),
    }
    let step = dispatch(state, press("done"), 0);
    assert_eq!(texts(&step), vec!["pair:\n✅ a, ❌ \n✅ b, ❌ x\n"]);
}

#[test]
fn skip_sends_no_report() {
    let state = selection(color_tasks());
    let step = dispatch(state, press("skip"), 0);
    assert!(matches!(step.state, State::PresentingTask { answer: None, .. }));
    assert!(texts(&step).is_empty());
    assert!(matches!(step.effects[..], [Effect::AnswerCallback]));
}

#[test]
fn comment_follows_report() {
    let expected = record(&[("color", &["red"])], Some("warm"));
    let right = record(&[("color", &["red"])], None);
    let wrong = record(&[("color", &["blue"])], None);
    assert_eq!(report(&expected, &right), "✅ Все правильноКомментарий: warm");
    assert_eq!(report(&expected, &wrong), "color:\n✅ red, ❌ blue\nКомментарий: warm");
}

#[test]
fn exit_from_every_state_then_begin() {
    let states = vec![
        State::Idle,
        State::AwaitingFile,
        State::PresentingTask { tasks: color_tasks(), answer: None },
        selection(color_tasks()),
        dispatch(selection(color_tasks()), press("color"), 0).state,
    ];
    for state in states {
        let step = dispatch(state, message(Some(Command::Exit), Some("/exit"), None), 0);
        assert!(matches!(step.state, State::Idle));
        assert_eq!(texts(&step), vec!["Тест остановлен"]);
        let again = dispatch(step.state, message(Some(Command::Start), Some("/start"), None), 0);
        assert!(matches!(again.state, State::AwaitingFile));
    }
    assert!(matches!(exit().state, State::Idle));
}

#[test]
fn buttons_outside_field_choice_get_a_hint() {
    let step = dispatch(State::AwaitingFile, press("done"), 0);
    assert!(matches!(step.state, State::AwaitingFile));
    assert_eq!(texts(&step), vec!["Эта кнопка сейчас не действует."]);
    assert!(matches!(step.effects.last(), Some(Effect::AnswerCallback)));
    let step = dispatch(State::Idle, press("skip"), 0);
    assert!(matches!(step.state, State::Idle));
    assert_eq!(step.effects.len(), 2);
}

#[test]
fn messages_during_field_choice_get_a_hint() {
    let step = dispatch(selection(color_tasks()), message(None, Some("hi"), None), 0);
    assert!(matches!(step.state, State::AwaitingFieldSelection { .. }));
    assert_eq!(texts(&step), vec!["Выбери категорию кнопкой."]);
}

#[test]
fn handlers_called_directly() {
    let step = receive_type(color_tasks_drawn(), record(&[("color", &[""])], None), None);
    assert!(matches!(step.effects[..], [Effect::AnswerCallback]));
    let step = receive_ans(
        color_tasks_drawn(),
        record(&[("color", &[""])], None),
        "color".to_string(),
        Some("green".to_string()),
    );
    match &step.state {
        State::AwaitingFieldSelection { answer, .. } => assert_eq!(answer.render(), "color: green\n"),
        _ => panic!("no field choice"),
    }
}

fn color_tasks_drawn() -> Tasks {
    let mut t = color_tasks();
    t.get_random_task(5);
    t
}

#[test]
fn states_from_steps_are_valid() {
    assert!(State::Idle.is_valid());
    assert!(State::AwaitingFile.awaits_file());
    assert!(!State::Idle.awaits_file());
    let state = selection(color_tasks());
    assert!(state.is_valid());
    let foreign = State::AwaitingFieldSelection {
        tasks: color_tasks_drawn(),
        answer: record(&[("shape", &[""])], None),
    };
    assert!(!foreign.is_valid());
    let undrawn = State::AwaitingFieldSelection {
        tasks: color_tasks(),
        answer: record(&[("color", &[""])], None),
    };
    assert!(!undrawn.is_valid());
}

#[test]
fn stored_value_leaves_other_fields() {
    let tasks = Tasks::new(vec![record(&[("a", &["1"]), ("b", &["2", "3"])], None)]);
    let state = selection(tasks);
    let state = dispatch(state, press("b"), 0).state;
    let state = dispatch(state, message(None, Some("3,2"), None), 0).state;
    match &state {
        State::AwaitingFieldSelection { answer, .. } => assert_eq!(answer.render(), "a: \nb: 2, 3\n"),
        _ => panic!("no field choice"),
    }
    let step = dispatch(state, press("done"), 0);
    assert_eq!(texts(&step), vec!["a:\n✅ 1, ❌ \n"]);
}
