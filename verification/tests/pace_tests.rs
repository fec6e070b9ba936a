use hey::{pace_plan, strip_ansi, visible_width};

#[test]
fn escape_sequences_pass_through_undelayed() {
    let plan = pace_plan("\x1b[31mA\x1b[0m");
    assert_eq!(plan.len(), 3);
    assert_eq!(plan[0].text, "\x1b[31m");
    assert!(!plan[0].delay);
    assert_eq!(plan[1].text, "A");
    assert!(plan[1].delay);
    assert_eq!(plan[2].text, "\x1b[0m");
    assert!(!plan[2].delay);
}

#[test]
fn plain_text_is_paced_character_by_character() {
    let plan = pace_plan("hi!");
    assert_eq!(plan.len(), 3);
    for (unit, expect) in plan.iter().zip(["h", "i", "!"]) {
        assert_eq!(unit.text, expect);
        assert!(unit.delay);
    }
}

#[test]
fn plan_emits_the_whole_text() {
    let text = "pre\x1b[32mgreen\x1b[0mpost";
    let plan = pace_plan(text);
    let rebuilt: String = plan.iter().map(|u| u.text.as_str()).collect();
    assert_eq!(rebuilt, text);
}

#[test]
fn unterminated_escape_becomes_one_unit() {
    let plan = pace_plan("\x1b[31");
    assert_eq!(plan.len(), 1);
    assert_eq!(plan[0].text, "\x1b[31");
    assert!(!plan[0].delay);
}

#[test]
fn bare_escape_is_one_undelayed_unit() {
    let plan = pace_plan("\x1bx");
    assert_eq!(plan.len(), 2);
    assert_eq!(plan[0].text, "\x1b");
    assert!(!plan[0].delay);
    assert_eq!(plan[1].text, "x");
    assert!(plan[1].delay);
}

#[test]
fn strip_ansi_removes_escapes_only() {
    assert_eq!(strip_ansi("\x1b[31mA\x1b[0m"), "A");
    assert_eq!(strip_ansi("plain"), "plain");
    assert_eq!(strip_ansi("\x1b[38;2;1;2;3mxy\x1b[0m"), "xy");
}

#[test]
fn visible_width_ignores_escapes() {
    assert_eq!(visible_width("\x1b[31mred\x1b[0m"), 3);
    assert_eq!(visible_width("abc"), 3);
    assert_eq!(visible_width(""), 0);
}
