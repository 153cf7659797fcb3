use trainer_bot::diff::{check_answer, print_diff, FieldDiff};
use trainer_bot::normalize::normalize_answer;
use trainer_bot::record::{Field, Record};
use trainer_bot::text::{sort_texts, split_on_commas, text_le_exec, trim_text};

fn strings(vs: &[&str]) -> Vec<String> {
    vs.iter().map(|v| v.to_string()).collect()
}

fn record(fields: &[(&str, &[&str])], comment: Option<&str>) -> Record {
    Record {
        fields: fields
            .iter()
            .map(|(n, vs)| Field { name: n.to_string(), values: strings(vs) })
            .collect(),
        comment: comment.map(|c| c.to_string()),
    }
}

fn pairs(d: &FieldDiff) -> Vec<(String, String)> {
    d.pairs.clone()
}

#[test]
fn text_order_is_lexicographic() {
    assert!(text_le_exec("a", "b"));
    assert!(!text_le_exec("b", "a"));
    assert!(text_le_exec("", "a"));
    assert!(text_le_exec("ab", "abc"));
    assert!(!text_le_exec("abc", "ab"));
    assert!(text_le_exec("abc", "abc"));
    assert!(text_le_exec("Z", "a"));
    assert!(text_le_exec("я", "ё"));
}

#[test]
fn trim_removes_surrounding_whitespace() {
    assert_eq!(trim_text("  red \t"), "red");
    assert_eq!(trim_text("\u{3000}x y\n"), "x y");
    assert_eq!(trim_text("   "), "");
    assert_eq!(trim_text(""), "");
}

#[test]
fn split_keeps_empty_pieces() {
    assert_eq!(split_on_commas("a,b"), strings(&["a", "b"]));
    assert_eq!(split_on_commas(""), strings(&[""]));
    assert_eq!(split_on_commas("a,,b,"), strings(&["a", "", "b", ""]));
}

#[test]
fn sort_orders_values() {
    assert_eq!(sort_texts(strings(&["b", "", "a", "b"])), strings(&["", "a", "b", "b"]));
}

#[test]
fn normalize_ignores_order_of_values() {
    assert_eq!(normalize_answer("b,a", 2), normalize_answer("a,b", 2));
    assert_eq!(normalize_answer("b,a", 2), strings(&["a", "b"]));
}

#[test]
fn normalize_trims_pieces() {
    assert_eq!(normalize_answer(" b , a ", 2), strings(&["a", "b"]));
}

#[test]
fn normalize_pads_to_arity() {
    assert_eq!(normalize_answer("x", 3), strings(&["", "", "x"]));
    assert_eq!(normalize_answer("x", 2), strings(&["", "x"]));
}

#[test]
fn normalize_keeps_extra_values() {
    assert_eq!(normalize_answer("c,a,b", 1), strings(&["a", "b", "c"]));
}

#[test]
fn permuted_answer_has_empty_diff() {
    let expected = record(&[("letters", &["a", "b"]), ("color", &["red"])], None);
    let answer = record(&[("letters", &["b", "a"]), ("color", &["red"])], None);
    assert!(check_answer(&expected, &answer).is_empty());
}

#[test]
fn single_field_right_and_wrong() {
    let expected = record(&[("color", &["red"])], None);
    let right = record(&[("color", &["red"])], None);
    let d = check_answer(&expected, &right);
    assert!(d.is_empty());
    assert_eq!(print_diff(&d), "✅ Все правильно");

    let wrong = record(&[("color", &["blue"])], None);
    let d = check_answer(&expected, &wrong);
    assert_eq!(d.len(), 1);
    assert_eq!(d[0].field, "color");
    assert_eq!(pairs(&d[0]), vec![("red".to_string(), "blue".to_string())]);
    assert_eq!(print_diff(&d), "color:\n✅ red, ❌ blue\n");
}

#[test]
fn short_answer_pairs_with_padding() {
    let expected = record(&[("pair", &["a", "b"])], None);
    let mut answer = expected.copy_format();
    let values = normalize_answer("x", expected.field_len("pair"));
    assert_eq!(values, strings(&["", "x"]));
    answer.replace("pair", values);
    let d = check_answer(&expected, &answer);
    assert_eq!(d.len(), 1);
    assert_eq!(
        pairs(&d[0]),
        vec![("a".to_string(), "".to_string()), ("b".to_string(), "x".to_string())]
    );
    assert_eq!(print_diff(&d), "pair:\n✅ a, ❌ \n✅ b, ❌ x\n");
}

#[test]
fn diff_follows_field_order_and_skips_matches() {
    let expected = record(&[("z", &["1"]), ("m", &["2"]), ("a", &["3"])], None);
    let answer = record(&[("a", &["4"]), ("m", &["2"]), ("z", &["5"])], None);
    let d = check_answer(&expected, &answer);
    assert_eq!(d.len(), 2);
    assert_eq!(d[0].field, "z");
    assert_eq!(d[1].field, "a");
    assert_eq!(print_diff(&d), "z:\n✅ 1, ❌ 5\na:\n✅ 3, ❌ 4\n");
}

#[test]
fn missing_field_in_answer_is_reported() {
    let expected = record(&[("color", &["red"])], None);
    let answer = record(&[], None);
    let d = check_answer(&expected, &answer);
    assert_eq!(d.len(), 1);
    assert!(pairs(&d[0]).is_empty());
}

#[test]
fn longer_answer_is_a_mismatch() {
    let expected = record(&[("color", &["red"])], None);
    let answer = record(&[("color", &["blue", "red"])], None);
    let d = check_answer(&expected, &answer);
    assert_eq!(pairs(&d[0]), vec![("red".to_string(), "blue".to_string())]);
}

#[test]
fn record_operations() {
    let r = record(&[("a", &["1", "2"]), ("b", &["3"])], Some("note"));
    assert_eq!(r.get_fields(), strings(&["a", "b"]));
    assert_eq!(r.field_len("a"), 2);
    assert_eq!(r.field_len("c"), 0);
    assert_eq!(r.find_field("b"), Some(1));
    assert_eq!(r.find_field("c"), None);
    assert_eq!(r.render(), "a: 1, 2\nb: 3\n");
    let shell = r.copy_format();
    assert_eq!(shell.render(), "a: , \nb: \n");
    assert!(shell.comment.is_none());
    let mut s = shell;
    s.replace("b", strings(&["9"]));
    s.replace("c", strings(&["7"]));
    assert_eq!(s.render(), "a: , \nb: 9\n");
}
