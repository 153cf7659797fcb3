//! Properties of the session and of answers, over the models of the other modules.
use vstd::prelude::*;
use crate::commands::Command;
use crate::dialogue::{
    current_task, dispatch_spec, report_spec, state_wf, tasks_ready, EventModel, StateModel,
};
use crate::diff::{diff_fields, diff_of, diff_text, entry_lines, zipped, EntryModel};
use crate::normalize::{normalized, padded, tokens};
use crate::record::{
    arity_of, blanks, lemma_lookup_by_names, lookup, names, replaced, shell_of, values_of,
    FieldModel, RecordModel,
};
use crate::text::{
    comma_split, lemma_comma_split_extend, lemma_sorted_texts, lemma_sorted_texts_eq,
    lemma_sorted_texts_unique, sorted_texts, trim,
};

verus! {

broadcast use vstd::seq_lib::group_to_multiset_ensures;

/// The command a message holds; none for a button press.
pub open spec fn command_of(e: EventModel) -> Option<Command> {
    match e {
        EventModel::Message { command, .. } => command,
        EventModel::Button { .. } => None,
    }
}

/// With tasks loaded and no answer yet, any message other than the exit
/// command draws a task: the session then waits for a field choice, the drawn
/// task is the current one, and the answer has exactly that task's field names.
pub proof fn law_message_draws_task(t: crate::dialogue::TasksModel, e: EventModel, draw: nat)
    requires
        tasks_ready(t),
        e is Message,
        command_of(e) != Some(Command::Exit),
    ensures
        ({
            let i = (draw % t.records.len()) as usize;
            match dispatch_spec(StateModel::PresentingTask { tasks: t, answer: None }, e, draw).state {
                StateModel::AwaitingFieldSelection { tasks, answer } => {
                    &&& tasks.records == t.records
                    &&& tasks.current == Some(i)
                    &&& names(answer.fields) == names(t.records[i as int].fields)
                },
                _ => false,
            }
        }),
{
    let i = (draw % t.records.len()) as usize;
    let m = t.records[i as int];
    assert(names(shell_of(m).fields) =~= names(m.fields));
}

/// The stored values depend only on the trimmed pieces taken as a multiset,
/// not on the order in which they were written.
pub proof fn law_normalized_ignores_order(x: Seq<char>, y: Seq<char>, arity: nat)
    requires
        tokens(x).to_multiset() == tokens(y).to_multiset(),
    ensures
        normalized(x, arity) == normalized(y, arity),
{
    let tx = tokens(x);
    let ty = tokens(y);
    assert(tx.len() == ty.len()) by {
        vstd::seq_lib::to_multiset_len(tx);
        vstd::seq_lib::to_multiset_len(ty);
    }
    if tx.len() < arity {
        let b = blanks((arity - tx.len()) as nat);
        vstd::seq_lib::lemma_multiset_commutative(tx, b);
        vstd::seq_lib::lemma_multiset_commutative(ty, b);
    }
    lemma_sorted_texts_eq(padded(tx, arity), padded(ty, arity));
}

/// The pieces of "a,b", for texts `a` and `b` without a comma.
pub proof fn lemma_tokens_of_pair(a: Seq<char>, b: Seq<char>)
    requires
        !a.contains(','),
        !b.contains(','),
    ensures
        tokens(a + seq![','] + b) == seq![trim(a), trim(b)],
{
    let e = Seq::<char>::empty();
    lemma_comma_split_extend(e, a);
    assert(e + a =~= a);
    assert(comma_split(e) =~= seq![e]);
    assert(comma_split(a) =~= seq![a]) by {
        assert(e + a =~= a);
    }
    let ac = a + seq![','];
    assert(ac.drop_last() =~= a);
    assert(comma_split(ac) =~= seq![a, e]);
    lemma_comma_split_extend(ac, b);
    assert(e + b =~= b);
    assert(comma_split(ac + b) =~= seq![a, b]);
    assert(tokens(a + seq![','] + b) =~= seq![trim(a), trim(b)]);
}

/// Writing two comma-free values in either order ("b,a" or "a,b") stores the
/// same values.
pub proof fn law_pair_order_irrelevant(a: Seq<char>, b: Seq<char>, arity: nat)
    requires
        !a.contains(','),
        !b.contains(','),
    ensures
        normalized(a + seq![','] + b, arity) == normalized(b + seq![','] + a, arity),
{
    lemma_tokens_of_pair(a, b);
    lemma_tokens_of_pair(b, a);
    let s = seq![trim(a), trim(b)];
    let t = seq![trim(b), trim(a)];
    assert(s.to_multiset() =~= t.to_multiset()) by {
        vstd::seq_lib::lemma_multiset_commutative(seq![trim(a)], seq![trim(b)]);
        vstd::seq_lib::lemma_multiset_commutative(seq![trim(b)], seq![trim(a)]);
        assert(seq![trim(a)] + seq![trim(b)] =~= s);
        assert(seq![trim(b)] + seq![trim(a)] =~= t);
    }
    law_normalized_ignores_order(a + seq![','] + b, b + seq![','] + a, arity);
}

/// With fewer pieces than the field's arity, the stored values number exactly
/// the arity: the pieces and, for the shortfall, empty values.
pub proof fn law_padding(text: Seq<char>, arity: nat)
    requires
        tokens(text).len() < arity,
    ensures
        normalized(text, arity).len() == arity,
        normalized(text, arity).to_multiset() == tokens(text).to_multiset().add(
            blanks((arity - tokens(text).len()) as nat).to_multiset(),
        ),
{
    let t = tokens(text);
    let b = blanks((arity - t.len()) as nat);
    lemma_sorted_texts(padded(t, arity));
    vstd::seq_lib::lemma_multiset_commutative(t, b);
}

proof fn lemma_permuted_field_absent(fs: Seq<FieldModel>, answer: RecordModel, name: Seq<char>)
    requires
        forall|j: int|
            0 <= j < fs.len() && #[trigger] fs[j].0 == name ==> values_of(answer, name).to_multiset()
                == fs[j].1.to_multiset(),
    ensures
        forall|k: int|
            0 <= k < diff_fields(fs, answer).len() ==> #[trigger] diff_fields(fs, answer)[k].0 != name,
    decreases fs.len(),
{
    if fs.len() > 0 {
        let last = fs.len() - 1;
        assert forall|j: int|
            0 <= j < fs.drop_last().len() && #[trigger] fs.drop_last()[j].0 == name implies values_of(
            answer,
            name,
        ).to_multiset() == fs.drop_last()[j].1.to_multiset() by {
            assert(fs[j].0 == name);
        }
        lemma_permuted_field_absent(fs.drop_last(), answer, name);
        let prev = diff_fields(fs.drop_last(), answer);
        assert(fs.last() == fs[last]);
        if fs[last].0 == name {
            assert(values_of(answer, name).to_multiset() == fs[last].1.to_multiset());
            assert(diff_fields(fs, answer) == prev);
        } else {
            assert forall|k: int|
                0 <= k < diff_fields(fs, answer).len() implies #[trigger] diff_fields(fs, answer)[k].0
                != name by {
                if k < prev.len() {
                    assert(diff_fields(fs, answer)[k] == prev[k]);
                }
            }
        }
    }
}

/// A field whose given values are a permutation of its expected values has no
/// entry in the diff.
pub proof fn law_permuted_field_not_in_diff(
    expected: RecordModel,
    answer: RecordModel,
    name: Seq<char>,
)
    requires
        forall|j: int|
            0 <= j < expected.fields.len() && #[trigger] expected.fields[j].0 == name
                ==> values_of(answer, name).to_multiset() == expected.fields[j].1.to_multiset(),
    ensures
        forall|k: int|
            0 <= k < diff_of(expected, answer).len() ==> #[trigger] diff_of(expected, answer)[k].0
                != name,
{
    lemma_permuted_field_absent(expected.fields, answer, name);
}

proof fn lemma_permuted_all_empty(fs: Seq<FieldModel>, answer: RecordModel)
    requires
        forall|j: int|
            0 <= j < fs.len() ==> values_of(answer, #[trigger] fs[j].0).to_multiset()
                == fs[j].1.to_multiset(),
    ensures
        diff_fields(fs, answer).len() == 0,
    decreases fs.len(),
{
    if fs.len() > 0 {
        assert forall|j: int| 0 <= j < fs.drop_last().len() implies values_of(
            answer,
            #[trigger] fs.drop_last()[j].0,
        ).to_multiset() == fs.drop_last()[j].1.to_multiset() by {
            assert(fs.drop_last()[j] == fs[j]);
        }
        lemma_permuted_all_empty(fs.drop_last(), answer);
        assert(values_of(answer, fs[fs.len() - 1].0).to_multiset() == fs[fs.len() - 1].1.to_multiset());
    }
}

/// An answer whose values are, field by field, a permutation of the expected
/// values has an empty diff.
pub proof fn law_permuted_answer_empty_diff(expected: RecordModel, answer: RecordModel)
    requires
        forall|j: int|
            0 <= j < expected.fields.len() ==> values_of(answer, #[trigger] expected.fields[j].0).to_multiset()
                == expected.fields[j].1.to_multiset(),
    ensures
        diff_of(expected, answer).len() == 0,
        report_spec(expected, answer) == "✅ Все правильно"@ + match expected.comment {
            Some(c) => "Комментарий: "@ + c,
            None => Seq::empty(),
        },
{
    lemma_permuted_all_empty(expected.fields, answer);
    match expected.comment {
        Some(c) => {
            assert("✅ Все правильно"@ + "Комментарий: "@ + c =~= "✅ Все правильно"@ + (
            "Комментарий: "@ + c));
        },
        None => {
            assert("✅ Все правильно"@ + Seq::<char>::empty() =~= "✅ Все правильно"@);
        },
    }
}

/// The exit command leads from every state to `Idle`, and the start command
/// then leads to a wait for a file, with no tasks or answer left over.
pub proof fn law_exit_then_begin(
    s: StateModel,
    leave: EventModel,
    begin: EventModel,
    d1: nat,
    d2: nat,
)
    requires
        leave is Message,
        command_of(leave) == Some(Command::Exit),
        begin is Message,
        command_of(begin) == Some(Command::Start),
    ensures
        dispatch_spec(s, leave, d1).state == StateModel::Idle,
        dispatch_spec(dispatch_spec(s, leave, d1).state, begin, d2).state == StateModel::AwaitingFile,
{
}

/// The answer after a value has been stored.
pub open spec fn stored_answer(s: StateModel) -> Option<RecordModel> {
    match s {
        StateModel::AwaitingFieldSelection { answer, .. } => Some(answer),
        _ => None,
    }
}

/// Text sent while the value of a field of the current task is awaited is
/// stored as that field's values, normalized to the field's arity in the
/// current task; the other fields keep their values, and the field choice
/// follows.
pub proof fn law_stored_value(
    t: crate::dialogue::TasksModel,
    a: RecordModel,
    f: Seq<char>,
    e: EventModel,
    x: Seq<char>,
    draw: nat,
)
    requires
        state_wf(StateModel::AwaitingFieldValue { tasks: t, answer: a, field: f }),
        lookup(current_task(t).fields, f) is Some,
        e matches EventModel::Message { text: Some(y), .. } && y == x,
        command_of(e) != Some(Command::Exit),
    ensures
        ({
            let r = dispatch_spec(StateModel::AwaitingFieldValue { tasks: t, answer: a, field: f }, e, draw);
            &&& r.state matches StateModel::AwaitingFieldSelection { tasks, .. } && tasks == t
            &&& stored_answer(r.state) matches Some(a2) && values_of(a2, f) == normalized(
                x,
                arity_of(current_task(t), f),
            ) && forall|g: Seq<char>| g != f ==> #[trigger] values_of(a2, g) == values_of(a, g)
        }),
{
    let vs = normalized(x, arity_of(current_task(t), f));
    let a2 = replaced(a, f, vs);
    lemma_lookup_by_names(a.fields, current_task(t).fields, f);
    crate::record::lemma_replaced_names(a, f, vs);
    lemma_lookup_by_names(a2.fields, a.fields, f);
    let i = lookup(a.fields, f)->0;
    assert(a2.fields[i] == (f, vs));
    assert forall|g: Seq<char>| g != f implies #[trigger] values_of(a2, g) == values_of(a, g) by {
        lemma_lookup_by_names(a2.fields, a.fields, g);
        if let Some(j) = lookup(a.fields, g) {
            assert(j != i);
        }
    }
}

/// A stored value with fewer pieces than the field's arity has exactly that
/// many values: the pieces and, for the shortfall, empty values.
pub proof fn law_stored_value_padded(
    t: crate::dialogue::TasksModel,
    a: RecordModel,
    f: Seq<char>,
    e: EventModel,
    x: Seq<char>,
    draw: nat,
)
    requires
        state_wf(StateModel::AwaitingFieldValue { tasks: t, answer: a, field: f }),
        lookup(current_task(t).fields, f) is Some,
        e matches EventModel::Message { text: Some(y), .. } && y == x,
        command_of(e) != Some(Command::Exit),
        tokens(x).len() < arity_of(current_task(t), f),
    ensures
        ({
            let k = arity_of(current_task(t), f);
            let r = dispatch_spec(StateModel::AwaitingFieldValue { tasks: t, answer: a, field: f }, e, draw);
            stored_answer(r.state) matches Some(a2) && values_of(a2, f).len() == k && values_of(
                a2,
                f,
            ).to_multiset() == tokens(x).to_multiset().add(
                blanks((k - tokens(x).len()) as nat).to_multiset(),
            )
        }),
{
    law_stored_value(t, a, f, e, x, draw);
    law_padding(x, arity_of(current_task(t), f));
}

/// Storing "a,b" or "b,a" (pieces without a comma) gives the field the same values.
pub proof fn law_stored_pair_order_irrelevant(
    t: crate::dialogue::TasksModel,
    a: RecordModel,
    f: Seq<char>,
    e1: EventModel,
    e2: EventModel,
    p: Seq<char>,
    q: Seq<char>,
    draw: nat,
)
    requires
        state_wf(StateModel::AwaitingFieldValue { tasks: t, answer: a, field: f }),
        lookup(current_task(t).fields, f) is Some,
        !p.contains(','),
        !q.contains(','),
        e1 matches EventModel::Message { text: Some(y), .. } && y == p + seq![','] + q,
        e2 matches EventModel::Message { text: Some(y), .. } && y == q + seq![','] + p,
        command_of(e1) != Some(Command::Exit),
        command_of(e2) != Some(Command::Exit),
    ensures
        ({
            let s = StateModel::AwaitingFieldValue { tasks: t, answer: a, field: f };
            stored_answer(dispatch_spec(s, e1, draw).state) matches Some(a1)
                && stored_answer(dispatch_spec(s, e2, draw).state) matches Some(a2)
                && values_of(a1, f) == values_of(a2, f)
        }),
{
    law_stored_value(t, a, f, e1, p + seq![','] + q, draw);
    law_stored_value(t, a, f, e2, q + seq![','] + p, draw);
    law_pair_order_irrelevant(p, q, arity_of(current_task(t), f));
}

/// A text without a comma, in a field of one value, is stored as that text
/// trimmed.
pub proof fn law_single_value(x: Seq<char>)
    requires
        !x.contains(','),
    ensures
        normalized(x, 1) == seq![trim(x)],
{
    let e = Seq::<char>::empty();
    lemma_comma_split_extend(e, x);
    assert(e + x =~= x);
    assert(comma_split(e) =~= seq![e]);
    assert(comma_split(x) =~= seq![x]);
    assert(tokens(x) =~= seq![trim(x)]);
    let s = seq![trim(x)];
    assert(padded(s, 1) == s);
    lemma_sorted_texts_unique(s, s);
}

proof fn lemma_one_field_differs(fs: Seq<FieldModel>, answer: RecordModel, f: Seq<char>, i: int)
    requires
        0 <= i < fs.len(),
        fs[i].0 == f,
        forall|j: int| 0 <= j < fs.len() && j != i ==> #[trigger] fs[j].0 != f,
        forall|j: int|
            0 <= j < fs.len() && j != i ==> values_of(answer, #[trigger] fs[j].0).to_multiset()
                == fs[j].1.to_multiset(),
        values_of(answer, f).to_multiset() != fs[i].1.to_multiset(),
    ensures
        diff_fields(fs, answer) == seq![(f, zipped(sorted_texts(fs[i].1), sorted_texts(values_of(answer, f))))],
    decreases fs.len(),
{
    let last = fs.len() - 1;
    let prev = fs.drop_last();
    if i == last {
        assert forall|j: int| 0 <= j < prev.len() implies values_of(answer, #[trigger] prev[j].0).to_multiset()
            == prev[j].1.to_multiset() by {
            assert(prev[j] == fs[j]);
        }
        lemma_permuted_all_empty(prev, answer);
        assert(fs.last() == fs[i]);
        assert(diff_fields(fs, answer) =~= seq![(f, zipped(sorted_texts(fs[i].1), sorted_texts(values_of(answer, f))))]);
    } else {
        assert forall|j: int| 0 <= j < prev.len() && j != i implies #[trigger] prev[j].0 != f by {
            assert(prev[j] == fs[j]);
        }
        assert forall|j: int| 0 <= j < prev.len() && j != i implies values_of(answer, #[trigger] prev[j].0).to_multiset()
            == prev[j].1.to_multiset() by {
            assert(prev[j] == fs[j]);
        }
        assert(prev[i] == fs[i]);
        lemma_one_field_differs(prev, answer, f, i);
        assert(fs.last() == fs[last]);
        assert(values_of(answer, fs[last].0).to_multiset() == fs[last].1.to_multiset());
    }
}

/// When exactly one field of the expected record is answered wrongly and every
/// other field's values are a permutation of the expected ones, the diff holds
/// one entry, for that field, pairing its expected and given values in
/// ascending order, and the report shows just that field.
pub proof fn law_one_field_differs(expected: RecordModel, answer: RecordModel, f: Seq<char>, i: int)
    requires
        0 <= i < expected.fields.len(),
        expected.fields[i].0 == f,
        forall|j: int| 0 <= j < expected.fields.len() && j != i ==> #[trigger] expected.fields[j].0 != f,
        forall|j: int|
            0 <= j < expected.fields.len() && j != i ==> values_of(answer, #[trigger] expected.fields[j].0).to_multiset()
                == expected.fields[j].1.to_multiset(),
        values_of(answer, f).to_multiset() != expected.fields[i].1.to_multiset(),
    ensures
        ({
            let pairs = zipped(sorted_texts(expected.fields[i].1), sorted_texts(values_of(answer, f)));
            &&& diff_of(expected, answer) == seq![(f, pairs)]
            &&& diff_text(diff_of(expected, answer)) == f + ":\n"@ + crate::diff::pair_lines(pairs)
        }),
{
    lemma_one_field_differs(expected.fields, answer, f, i);
    let pairs = zipped(sorted_texts(expected.fields[i].1), sorted_texts(values_of(answer, f)));
    let d: Seq<EntryModel> = seq![(f, pairs)];
    assert(d.drop_last() =~= Seq::<EntryModel>::empty());
    assert(entry_lines(d.drop_last()) == Seq::<char>::empty());
    assert(d.last() == (f, pairs));
    assert(Seq::<char>::empty() + f =~= f);
    assert(entry_lines(d) =~= f + ":\n"@ + crate::diff::pair_lines(pairs));
}

} // verus!
