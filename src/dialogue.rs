//! The per-session conversation: states, the events that drive them, and the
//! effects that each step asks the transport to carry out.
use vstd::prelude::*;
use crate::commands::Command;
use crate::diff::{check_answer, diff_of, diff_text, print_diff, same_texts};
use crate::normalize::{normalize_answer, normalized};
use crate::record::{arity_of, lemma_replaced_names, lemma_shell_names, opt_text, names, rendered, replaced, shell_of, Record, RecordModel, Tasks};

verus! {

/// What the tasks of a session hold.
pub struct TasksModel {
    pub records: Seq<RecordModel>,
    pub current: Option<usize>,
}

impl View for Tasks {
    type V = TasksModel;

    open spec fn view(&self) -> TasksModel {
        TasksModel { records: self.records@.map_values(|r: Record| r@), current: self.current }
    }
}

/// The state of one conversation.
#[derive(Clone, Debug)]
#[allow(inconsistent_fields)]
pub enum State {
    /// Nothing under way; the state a session starts in.
    Idle,
    /// Waiting for a file of tasks.
    AwaitingFile,
    /// A task is to be shown; with no answer yet, one is drawn on the next message.
    PresentingTask { tasks: Tasks, answer: Option<Record> },
    /// Waiting for the user to pick a field, to submit or to skip.
    AwaitingFieldSelection { tasks: Tasks, answer: Record },
    /// Waiting for the value of `field`.
    AwaitingFieldValue { tasks: Tasks, answer: Record, field: String },
}

/// What a state holds.
#[allow(inconsistent_fields)]
pub enum StateModel {
    Idle,
    AwaitingFile,
    PresentingTask { tasks: TasksModel, answer: Option<RecordModel> },
    AwaitingFieldSelection { tasks: TasksModel, answer: RecordModel },
    AwaitingFieldValue { tasks: TasksModel, answer: RecordModel, field: Seq<char> },
}

/// The view of an optional record.
pub open spec fn opt_record(o: Option<Record>) -> Option<RecordModel> {
    match o {
        Some(r) => Some(r@),
        None => None,
    }
}

impl View for State {
    type V = StateModel;

    open spec fn view(&self) -> StateModel {
        match self {
            State::Idle => StateModel::Idle,
            State::AwaitingFile => StateModel::AwaitingFile,
            State::PresentingTask { tasks, answer } => StateModel::PresentingTask {
                tasks: tasks@,
                answer: opt_record(*answer),
            },
            State::AwaitingFieldSelection { tasks, answer } => StateModel::AwaitingFieldSelection {
                tasks: tasks@,
                answer: answer@,
            },
            State::AwaitingFieldValue { tasks, answer, field } => StateModel::AwaitingFieldValue {
                tasks: tasks@,
                answer: answer@,
                field: field@,
            },
        }
    }
}

/// A task set from which a task can be drawn, and whose current task, if
/// any, lies within it.
pub open spec fn tasks_ready(t: TasksModel) -> bool {
    &&& t.records.len() > 0
    &&& match t.current {
        Some(i) => i < t.records.len(),
        None => true,
    }
}

/// A task set with a current task.
pub open spec fn tasks_current(t: TasksModel) -> bool {
    tasks_ready(t) && t.current is Some
}

/// An answer to the current task of `t`: it has that task's field names, in
/// the same order.
pub open spec fn answer_fits(t: TasksModel, a: RecordModel) -> bool {
    tasks_current(t) && names(a.fields) == names(current_task(t).fields)
}

/// The states that a session can be in: every state that holds tasks holds
/// at least one, and every answer is one to the drawn task.
pub open spec fn state_wf(s: StateModel) -> bool {
    match s {
        StateModel::PresentingTask { tasks, answer } => tasks_ready(tasks) && match answer {
            Some(a) => answer_fits(tasks, a),
            None => true,
        },
        StateModel::AwaitingFieldSelection { tasks, answer } => answer_fits(tasks, answer),
        StateModel::AwaitingFieldValue { tasks, answer, .. } => answer_fits(tasks, answer),
        _ => true,
    }
}

/// A button: the text shown and the data sent back when it is pressed.
pub struct Button {
    pub label: String,
    pub data: String,
}

impl View for Button {
    type V = (Seq<char>, Seq<char>);

    open spec fn view(&self) -> (Seq<char>, Seq<char>) {
        (self.label@, self.data@)
    }
}

/// Something the transport is to do for the session.
pub enum Effect {
    /// Send a message.
    Text(String),
    /// Send a message with rows of buttons.
    Choices { text: String, rows: Vec<Vec<Button>> },
    /// Send the list of commands.
    Help,
    /// Acknowledge the button press being handled.
    AnswerCallback,
}

/// What an effect holds.
pub enum EffectModel {
    Text(Seq<char>),
    Choices { text: Seq<char>, rows: Seq<Seq<(Seq<char>, Seq<char>)>> },
    Help,
    AnswerCallback,
}

/// The views of rows of buttons.
pub open spec fn button_rows(rows: Seq<Vec<Button>>) -> Seq<Seq<(Seq<char>, Seq<char>)>> {
    rows.map_values(|row: Vec<Button>| row@.map_values(|b: Button| b@))
}

impl View for Effect {
    type V = EffectModel;

    open spec fn view(&self) -> EffectModel {
        match self {
            Effect::Text(t) => EffectModel::Text(t@),
            Effect::Choices { text, rows } => EffectModel::Choices {
                text: text@,
                rows: button_rows(rows@),
            },
            Effect::Help => EffectModel::Help,
            Effect::AnswerCallback => EffectModel::AnswerCallback,
        }
    }
}

/// The outcome of handling one event: the next state and the effects, in order.
pub struct Step {
    pub state: State,
    pub effects: Vec<Effect>,
}

/// What a step holds.
pub struct StepModel {
    pub state: StateModel,
    pub effects: Seq<EffectModel>,
}

impl View for Step {
    type V = StepModel;

    open spec fn view(&self) -> StepModel {
        StepModel { state: self.state@, effects: self.effects@.map_values(|e: Effect| e@) }
    }
}

/// An uploaded file, as read by the task parser.
pub enum Upload {
    /// The tasks the file holds, possibly none.
    Loaded(Vec<Record>),
    /// The file could not be parsed.
    Unreadable,
}

/// What an upload holds.
pub enum UploadModel {
    Loaded(Seq<RecordModel>),
    Unreadable,
}

impl View for Upload {
    type V = UploadModel;

    open spec fn view(&self) -> UploadModel {
        match self {
            Upload::Loaded(rs) => UploadModel::Loaded(rs@.map_values(|r: Record| r@)),
            Upload::Unreadable => UploadModel::Unreadable,
        }
    }
}

/// An inbound event of one session.
pub enum Event {
    /// A message: the command it holds, if any, its text, if any, and the
    /// file it carries, if any.
    Message { command: Option<Command>, text: Option<String>, upload: Option<Upload> },
    /// A button press, with the data of the button.
    Button { data: Option<String> },
}

/// What an event holds.
pub enum EventModel {
    Message { command: Option<Command>, text: Option<Seq<char>>, upload: Option<UploadModel> },
    Button { data: Option<Seq<char>> },
}

impl View for Event {
    type V = EventModel;

    open spec fn view(&self) -> EventModel {
        match self {
            Event::Message { command, text, upload } => EventModel::Message {
                command: *command,
                text: opt_text(*text),
                upload: match upload {
                    Some(u) => Some(u@),
                    None => None,
                },
            },
            Event::Button { data } => EventModel::Button { data: opt_text(*data) },
        }
    }
}

/// A step that sends one message.
pub open spec fn say(state: StateModel, text: Seq<char>) -> StepModel {
    StepModel { state, effects: seq![EffectModel::Text(text)] }
}

/// A button pressed where no button is expected: the state stays, the user
/// is told, and the press is acknowledged.
pub open spec fn stray_button_spec(state: StateModel) -> StepModel {
    StepModel {
        state,
        effects: seq![
            EffectModel::Text("Эта кнопка сейчас не действует."@),
            EffectModel::AnswerCallback,
        ],
    }
}

/// Beginning a session: wait for a file.
pub open spec fn start_spec() -> StepModel {
    say(StateModel::AwaitingFile, "Давай начнем! Пришли .csv файл с заданиями, чтобы начать."@)
}

/// Leaving a session: back to `Idle`, whatever was under way.
pub open spec fn exit_spec() -> StepModel {
    say(StateModel::Idle, "Тест остановлен"@)
}

/// Asking for help while idle.
pub open spec fn help_spec() -> StepModel {
    StepModel { state: StateModel::Idle, effects: seq![EffectModel::Help] }
}

/// Receiving a message while waiting for a file.
pub open spec fn receive_file_spec(upload: Option<UploadModel>) -> StepModel {
    match upload {
        None => say(StateModel::AwaitingFile, "Пожалуйста, отправьте файл."@),
        Some(UploadModel::Unreadable) => say(StateModel::AwaitingFile, "Не удалось прочитать файл"@),
        Some(UploadModel::Loaded(rs)) => if rs.len() == 0 {
            say(StateModel::AwaitingFile, "В файле нет заданий"@)
        } else {
            say(
                StateModel::PresentingTask {
                    tasks: TasksModel { records: rs, current: None },
                    answer: None,
                },
                "Файл загружен! Напишите что-нибудь, чтобы начать тренировку."@,
            )
        },
    }
}

/// The buttons of the field choice: one per field name, then submit and skip.
pub open spec fn choice_rows(a: RecordModel) -> Seq<Seq<(Seq<char>, Seq<char>)>> {
    seq![
        names(a.fields).map_values(|n: Seq<char>| (n, n)),
        seq![("Сдать"@, "done"@), ("Пропустить"@, "skip"@)],
    ]
}

/// The prompt for a field: the answer so far, then the field choice.
pub open spec fn selection_prompt(a: RecordModel) -> Seq<EffectModel> {
    seq![
        EffectModel::Text(rendered(a.fields)),
        EffectModel::Choices { text: "Выбери категорию:"@, rows: choice_rows(a) },
    ]
}

/// Presenting a task: with no answer, task `draw % len` becomes the current
/// one and its answer shell the answer.
pub open spec fn run_test_spec(t: TasksModel, answer: Option<RecordModel>, draw: nat) -> StepModel {
    match answer {
        Some(a) => StepModel {
            state: StateModel::AwaitingFieldSelection { tasks: t, answer: a },
            effects: selection_prompt(a),
        },
        None => {
            let i = (draw % t.records.len()) as usize;
            let a = shell_of(t.records[i as int]);
            StepModel {
                state: StateModel::AwaitingFieldSelection {
                    tasks: TasksModel { records: t.records, current: Some(i) },
                    answer: a,
                },
                effects: selection_prompt(a),
            }
        },
    }
}

/// The current task of `t`.
pub open spec fn current_task(t: TasksModel) -> RecordModel {
    t.records[t.current.unwrap() as int]
}

/// The report on an answer to `expected`: the diff, then the comment if any.
pub open spec fn report_spec(expected: RecordModel, answer: RecordModel) -> Seq<char> {
    let d = diff_of(expected, answer);
    match expected.comment {
        None => diff_text(d),
        Some(c) => diff_text(d) + "Комментарий: "@ + c,
    }
}

/// Pressing a button while a field is to be chosen.
pub open spec fn receive_type_spec(t: TasksModel, a: RecordModel, data: Option<Seq<char>>) -> StepModel {
    match data {
        None => StepModel {
            state: StateModel::AwaitingFieldSelection { tasks: t, answer: a },
            effects: seq![EffectModel::AnswerCallback],
        },
        Some(d) => if d == "done"@ {
            StepModel {
                state: StateModel::PresentingTask { tasks: t, answer: None },
                effects: seq![
                    EffectModel::Text(report_spec(current_task(t), a)),
                    EffectModel::AnswerCallback,
                ],
            }
        } else if d == "skip"@ {
            StepModel {
                state: StateModel::PresentingTask { tasks: t, answer: None },
                effects: seq![EffectModel::AnswerCallback],
            }
        } else {
            StepModel {
                state: StateModel::AwaitingFieldValue { tasks: t, answer: a, field: d },
                effects: seq![
                    EffectModel::Text("Введи "@ + d + ":"@),
                    EffectModel::AnswerCallback,
                ],
            }
        },
    }
}

/// Receiving a message while the value of `field` is awaited.
pub open spec fn receive_ans_spec(
    t: TasksModel,
    a: RecordModel,
    field: Seq<char>,
    text: Option<Seq<char>>,
) -> StepModel {
    match text {
        None => say(StateModel::AwaitingFieldValue { tasks: t, answer: a, field }, "Введите текст"@),
        Some(x) => {
            let vs = normalized(x, arity_of(current_task(t), field));
            let a2 = replaced(a, field, vs);
            StepModel {
                state: StateModel::AwaitingFieldSelection { tasks: t, answer: a2 },
                effects: selection_prompt(a2),
            }
        },
    }
}

/// One step of a session: the handler that the state and the event select.
pub open spec fn dispatch_spec(s: StateModel, e: EventModel, draw: nat) -> StepModel {
    match e {
        EventModel::Message { command, text, upload } => if command == Some(Command::Exit) {
            exit_spec()
        } else {
            match s {
                StateModel::Idle => match command {
                    Some(Command::Help) => help_spec(),
                    Some(Command::Start) => start_spec(),
                    _ => say(s, "Отправь /start, чтобы начать тренировку."@),
                },
                StateModel::AwaitingFile => receive_file_spec(upload),
                StateModel::PresentingTask { tasks, answer } => run_test_spec(tasks, answer, draw),
                StateModel::AwaitingFieldSelection { .. } => say(s, "Выбери категорию кнопкой."@),
                StateModel::AwaitingFieldValue { tasks, answer, field } => receive_ans_spec(
                    tasks,
                    answer,
                    field,
                    text,
                ),
            }
        },
        EventModel::Button { data } => match s {
            StateModel::AwaitingFieldSelection { tasks, answer } => receive_type_spec(
                tasks,
                answer,
                data,
            ),
            _ => stray_button_spec(s),
        },
    }
}

/// The views of a sequence of effects.
pub open spec fn effect_views(v: Seq<Effect>) -> Seq<EffectModel> {
    v.map_values(|e: Effect| e@)
}

fn text_effect(t: &str) -> (r: Effect)
    ensures
        r@ == EffectModel::Text(t@),
{
    Effect::Text(String::from_str(t))
}

fn say_step(state: State, t: &str) -> (r: Step)
    ensures
        r@ == say(state@, t@),
{
    let mut effects: Vec<Effect> = Vec::new();
    effects.push(text_effect(t));
    assert(effect_views(effects@) =~= seq![EffectModel::Text(t@)]);
    Step { state, effects }
}

fn stray_button_step(state: State) -> (r: Step)
    ensures
        r@ == stray_button_spec(state@),
{
    let mut effects: Vec<Effect> = Vec::new();
    effects.push(text_effect("Эта кнопка сейчас не действует."));
    effects.push(Effect::AnswerCallback);
    assert(effect_views(effects@) =~= stray_button_spec(state@).effects);
    Step { state, effects }
}

fn button(label: &str, data: &str) -> (r: Button)
    ensures
        r@ == (label@, data@),
{
    Button { label: String::from_str(label), data: String::from_str(data) }
}

/// The effects that ask for a field of `a`.
fn prompt(a: &Record) -> (r: Vec<Effect>)
    ensures
        effect_views(r@) == selection_prompt(a@),
{
    let fields = a.get_fields();
    let ghost want = names(a@.fields).map_values(|n: Seq<char>| (n, n));
    let mut row: Vec<Button> = Vec::new();
    let mut i: usize = 0;
    assert(crate::text::texts(fields@).len() == fields@.len());
    while i < fields.len()
        invariant
            crate::text::texts(fields@) == names(a@.fields),
            fields@.len() == want.len(),
            want == names(a@.fields).map_values(|n: Seq<char>| (n, n)),
            i <= fields.len(),
            row@.map_values(|b: Button| b@) == want.subrange(0, i as int),
        decreases fields.len() - i,
    {
        let ghost r0 = row@.map_values(|b: Button| b@);
        let b = Button { label: fields[i].clone(), data: fields[i].clone() };
        assert(crate::text::texts(fields@)[i as int] == fields@[i as int]@);
        let ghost n = names(a@.fields)[i as int];
        assert(n == fields@[i as int]@);
        assert(want[i as int] == (n, n));
        assert(b.label@ == n && b.data@ == n);
        assert(b@ == want[i as int]);
        row.push(b);
        assert(row@.map_values(|b: Button| b@) =~= r0.push(want[i as int]));
        i = i + 1;
        assert(row@.map_values(|b: Button| b@) =~= want.subrange(0, i as int));
    }
    assert(want.subrange(0, i as int) =~= want);
    let mut fixed: Vec<Button> = Vec::new();
    fixed.push(button("Сдать", "done"));
    fixed.push(button("Пропустить", "skip"));
    let mut rows: Vec<Vec<Button>> = Vec::new();
    let ghost fixed_view = fixed@.map_values(|b: Button| b@);
    assert(fixed_view =~= seq![("Сдать"@, "done"@), ("Пропустить"@, "skip"@)]);
    let ghost row_view = row@.map_values(|b: Button| b@);
    rows.push(row);
    rows.push(fixed);
    assert(button_rows(rows@) =~= seq![row_view, fixed_view]);
    assert(button_rows(rows@) =~= choice_rows(a@));
    let mut effects: Vec<Effect> = Vec::new();
    effects.push(Effect::Text(a.render()));
    effects.push(Effect::Choices { text: String::from_str("Выбери категорию:"), rows });
    assert(effect_views(effects@) =~= selection_prompt(a@));
    effects
}

/// Begins a session: asks for a file of tasks.
pub fn start() -> (r: Step)
    ensures
        r@ == start_spec(),
{
    say_step(State::AwaitingFile, "Давай начнем! Пришли .csv файл с заданиями, чтобы начать.")
}

/// Leaves the session, from any state.
pub fn exit() -> (r: Step)
    ensures
        r@ == exit_spec(),
{
    say_step(State::Idle, "Тест остановлен")
}

/// Answers a request for help.
pub fn help() -> (r: Step)
    ensures
        r@ == help_spec(),
{
    let mut effects: Vec<Effect> = Vec::new();
    effects.push(Effect::Help);
    assert(effect_views(effects@) =~= seq![EffectModel::Help]);
    Step { state: State::Idle, effects }
}

/// Handles a message while a file is awaited: a file with tasks loads them, a
/// file with none or one that cannot be read is reported, and anything else is
/// met with a request for a file.
pub fn receive_file(upload: Option<Upload>) -> (r: Step)
    ensures
        r@ == receive_file_spec(match upload {
            Some(u) => Some(u@),
            None => None,
        }),
{
    match upload {
        None => say_step(State::AwaitingFile, "Пожалуйста, отправьте файл."),
        Some(Upload::Unreadable) => say_step(State::AwaitingFile, "Не удалось прочитать файл"),
        Some(Upload::Loaded(records)) => {
            if records.len() == 0 {
                say_step(State::AwaitingFile, "В файле нет заданий")
            } else {
                let tasks = Tasks::new(records);
                say_step(
                    State::PresentingTask { tasks, answer: None },
                    "Файл загружен! Напишите что-нибудь, чтобы начать тренировку.",
                )
            }
        },
    }
}

/// Presents a task: without an answer, draws task `draw % len` and starts its
/// answer shell; then shows the answer and the choice of fields.
pub fn run_test(tasks: Tasks, answer: Option<Record>, draw: usize) -> (r: Step)
    requires
        state_wf(StateModel::PresentingTask { tasks: tasks@, answer: opt_record(answer) }),
    ensures
        r@ == run_test_spec(tasks@, opt_record(answer), draw as nat),
{
    let mut tasks = tasks;
    match answer {
        Some(a) => {
            let effects = prompt(&a);
            Step { state: State::AwaitingFieldSelection { tasks, answer: a }, effects }
        },
        None => {
            let ghost t0 = tasks@;
            let i = tasks.get_random_task(draw);
            assert(tasks@.records =~= t0.records);
            let a = tasks.records[i].copy_format();
            let effects = prompt(&a);
            Step { state: State::AwaitingFieldSelection { tasks, answer: a }, effects }
        },
    }
}

/// The report on `answer` to `expected`: the diff, then the comment if any.
pub fn report(expected: &Record, answer: &Record) -> (r: String)
    ensures
        r@ == report_spec(expected@, answer@),
{
    let d = check_answer(expected, answer);
    let mut msg = print_diff(&d);
    match &expected.comment {
        Some(c) => {
            msg.append("Комментарий: ");
            msg.append(c.as_str());
        },
        None => {},
    }
    msg
}

/// Handles a button press while a field is to be chosen: "done" reports on
/// the answer and clears it, "skip" clears it, and a field name asks for the
/// value of that field.
pub fn receive_type(tasks: Tasks, answer: Record, data: Option<String>) -> (r: Step)
    requires
        tasks_current(tasks@),
    ensures
        r@ == receive_type_spec(tasks@, answer@, opt_text(data)),
{
    let mut effects: Vec<Effect> = Vec::new();
    let state = match data {
        None => State::AwaitingFieldSelection { tasks, answer },
        Some(d) => {
            if d == String::from_str("done") {
                let cur = tasks.current.unwrap();
                let msg = report(&tasks.records[cur], &answer);
                effects.push(Effect::Text(msg));
                State::PresentingTask { tasks, answer: None }
            } else if d == String::from_str("skip") {
                State::PresentingTask { tasks, answer: None }
            } else {
                let mut msg = String::from_str("Введи ");
                msg.append(d.as_str());
                msg.append(":");
                effects.push(Effect::Text(msg));
                State::AwaitingFieldValue { tasks, answer, field: d }
            }
        },
    };
    effects.push(Effect::AnswerCallback);
    let r = Step { state, effects };
    assert(r@.effects =~= receive_type_spec(tasks@, answer@, opt_text(data)).effects);
    r
}

/// Handles a message while the value of `field` is awaited: text becomes the
/// field's values in the answer, normalized to the arity of the current task's
/// field; anything else is met with a request for text.
pub fn receive_ans(tasks: Tasks, answer: Record, field: String, text: Option<String>) -> (r: Step)
    requires
        tasks_current(tasks@),
    ensures
        r@ == receive_ans_spec(tasks@, answer@, field@, opt_text(text)),
{
    match text {
        None => say_step(State::AwaitingFieldValue { tasks, answer, field }, "Введите текст"),
        Some(x) => {
            let cur = tasks.current.unwrap();
            let arity = tasks.records[cur].field_len(field.as_str());
            let values = normalize_answer(x.as_str(), arity);
            let mut answer = answer;
            answer.replace(field.as_str(), values);
            let effects = prompt(&answer);
            Step { state: State::AwaitingFieldSelection { tasks, answer }, effects }
        },
    }
}

/// Whether `answer` is an answer to the current task of `tasks`.
fn fits(tasks: &Tasks, answer: &Record) -> (r: bool)
    ensures
        r == answer_fits(tasks@, answer@),
{
    match tasks.current {
        None => false,
        Some(i) => {
            if i >= tasks.records.len() {
                return false;
            }
            let want = tasks.records[i].get_fields();
            let got = answer.get_fields();
            assert(tasks@.records[i as int] == tasks.records@[i as int]@);
            same_texts(&got, &want)
        },
    }
}

/// Every step leads from a state a session can be in to another such state.
pub proof fn lemma_dispatch_keeps_wf(s: StateModel, e: EventModel, draw: nat)
    requires
        state_wf(s),
    ensures
        state_wf(dispatch_spec(s, e, draw).state),
{
    match s {
        StateModel::PresentingTask { tasks, answer } => {
            if answer is None {
                let i = (draw % tasks.records.len()) as usize;
                lemma_shell_names(tasks.records[i as int]);
            }
        },
        StateModel::AwaitingFieldValue { tasks, answer, field } => {
            match e {
                EventModel::Message { text: Some(x), .. } => {
                    lemma_replaced_names(
                        answer,
                        field,
                        normalized(x, arity_of(current_task(tasks), field)),
                    );
                },
                _ => {},
            }
        },
        _ => {},
    }
}

impl State {
    /// Whether this is a state a session can be in (see `state_wf`).
    pub fn is_valid(&self) -> (r: bool)
        ensures
            r == state_wf(self@),
    {
        match self {
            State::PresentingTask { tasks, answer } => {
                let ready = match tasks.current {
                    Some(i) => i < tasks.records.len(),
                    None => true,
                };
                if !(tasks.records.len() > 0 && ready) {
                    return false;
                }
                match answer {
                    Some(a) => fits(tasks, a),
                    None => true,
                }
            },
            State::AwaitingFieldSelection { tasks, answer } => fits(tasks, answer),
            State::AwaitingFieldValue { tasks, answer, .. } => fits(tasks, answer),
            _ => true,
        }
    }

    /// Whether a file sent now would be read.
    pub fn awaits_file(&self) -> (r: bool)
        ensures
            r == (self@ is AwaitingFile),
    {
        match self {
            State::AwaitingFile => true,
            _ => false,
        }
    }
}

/// Handles one event of a session: routes it by the state and the event's
/// shape to its handler. `draw` is a number chosen at random by the caller,
/// used where a task is drawn.
pub fn dispatch(state: State, event: Event, draw: usize) -> (r: Step)
    requires
        state_wf(state@),
    ensures
        r@ == dispatch_spec(state@, event@, draw as nat),
        state_wf(r.state@),
{
    proof {
        lemma_dispatch_keeps_wf(state@, event@, draw as nat);
    }
    match event {
        Event::Message { command, text, upload } => {
            let leaving = match command {
                Some(Command::Exit) => true,
                _ => false,
            };
            if leaving {
                return exit();
            }
            match state {
                State::Idle => match command {
                    Some(Command::Help) => help(),
                    Some(Command::Start) => start(),
                    _ => say_step(State::Idle, "Отправь /start, чтобы начать тренировку."),
                },
                State::AwaitingFile => receive_file(upload),
                State::PresentingTask { tasks, answer } => run_test(tasks, answer, draw),
                State::AwaitingFieldSelection { tasks, answer } => say_step(
                    State::AwaitingFieldSelection { tasks, answer },
                    "Выбери категорию кнопкой.",
                ),
                State::AwaitingFieldValue { tasks, answer, field } => receive_ans(
                    tasks,
                    answer,
                    field,
                    text,
                ),
            }
        },
        Event::Button { data } => match state {
            State::AwaitingFieldSelection { tasks, answer } => receive_type(tasks, answer, data),
            other => stray_button_step(other),
        },
    }
}

} // verus!
