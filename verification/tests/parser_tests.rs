use plan_questions::model::QuestionKind;
use plan_questions::parser::parse_plan_question_round;

#[test]
fn parse_accepts_unindented_options() {
    let text = "\
Goal
X

Decision points
1) **Scope** (single-select): Choose one
1. Option A
2. Option B

Checkpoints
- None
";
    let round = parse_plan_question_round(text).expect("expected round");
    assert_eq!(round.questions.len(), 1);
    assert_eq!(round.questions[0].options[0].title, "Option A");
    assert_eq!(round.questions[0].options[1].title, "Option B");
    assert_eq!(
        round.questions[0]
            .options
            .last()
            .expect("expected free text option")
            .title,
        "(None) Type your answer"
    );
}

#[test]
fn parse_accepts_colon_separators() {
    let text = "\
Decision points
1: **Scope** (single-select): Choose one
  1. Option A
  2. Option B
";
    let round = parse_plan_question_round(text).expect("expected round");
    assert_eq!(round.questions.len(), 1);
    assert_eq!(round.questions[0].label, "Scope");
}

#[test]
fn parse_none_without_questions() {
    let text = "\
Decision points
- This is not formatted as questions
";
    assert!(parse_plan_question_round(text).is_none());
}

#[test]
fn parse_accepts_bullet_options() {
    let text = "\
Decision points
1) **Scope** (single-select): Choose one
- Option A
- Option B
";
    let round = parse_plan_question_round(text).expect("expected round");
    assert_eq!(round.questions.len(), 1);
    assert_eq!(round.questions[0].options[0].title, "Option A");
    assert_eq!(round.questions[0].options[1].title, "Option B");
    assert_eq!(
        round.questions[0]
            .options
            .last()
            .expect("expected free text option")
            .title,
        "(None) Type your answer"
    );
}

#[test]
fn parse_accumulates_multiline_option_description() {
    let text = "\
Decision points
1) **Scope** (single-select): Choose one
  1. Option A
     This is a longer description
     that spans multiple lines.
  2. Option B
";
    let round = parse_plan_question_round(text).expect("expected round");
    assert_eq!(round.questions.len(), 1);
    assert_eq!(round.questions[0].options[0].title, "Option A");
    assert_eq!(
        round.questions[0].options[0].description.as_deref(),
        Some("This is a longer description that spans multiple lines.")
    );
}

#[test]
fn parse_forces_free_text_without_relabeling_real_option() {
    let text = "\
Decision points
1) **Scope** (single-select): Choose one
  1. Option A
  2. Option B
  3. Option C
  4. Option D
  5. Option E
";
    let round = parse_plan_question_round(text).expect("expected round");
    assert_eq!(round.questions.len(), 1);
    assert_eq!(round.questions[0].options.len(), 5);
    assert_eq!(round.questions[0].options[0].title, "Option A");
    assert_eq!(round.questions[0].options[3].title, "Option D");
    assert_eq!(
        round.questions[0]
            .options
            .last()
            .expect("expected free text option")
            .title,
        "(None) Type your answer"
    );
    assert!(
        round.questions[0]
            .options
            .last()
            .expect("expected free text option")
            .is_free_text
    );
}

#[test]
fn parse_none_without_header() {
    assert!(parse_plan_question_round("no decision section here").is_none());
}

#[test]
fn parse_truncates_to_five_questions() {
    let mut text = String::from("Decision points\n");
    for i in 1..=7 {
        text.push_str(&format!("{i}) **Q{i}** (single-select): Pick\n"));
        text.push_str("  1. Option A\n  2. Option B\n");
    }
    let round = parse_plan_question_round(&text).expect("expected round");
    assert_eq!(round.questions.len(), 5);
    for q in &round.questions {
        assert!(q.options.len() >= 2 && q.options.len() <= 5);
        assert!(q.options.last().unwrap().is_free_text);
    }
}

#[test]
fn parse_round_invariants_hold() {
    let text = "\
Decision points
1) **Scope** (multi-select): Select all that apply
  1. Option A
  2. Option B
2) **Depth** (single-select): Choose one
  1. Shallow - quick pass
  2. Deep
";
    let round = parse_plan_question_round(text).expect("expected round");
    assert!(1 <= round.questions.len() && round.questions.len() <= 5);
    assert_eq!(round.questions[0].kind, QuestionKind::MultiSelect);
    assert_eq!(round.questions[1].kind, QuestionKind::SingleSelect);
    for q in &round.questions {
        assert!(1 <= q.options.len() && q.options.len() <= 5);
        assert!(q.options.last().unwrap().is_free_text);
        for o in &q.options[..q.options.len() - 1] {
            assert!(!o.is_free_text);
        }
    }
    assert_eq!(round.questions[1].options[0].title, "Shallow");
    assert_eq!(
        round.questions[1].options[0].description.as_deref(),
        Some("quick pass")
    );
}

#[test]
fn parse_stops_at_section_heading() {
    let text = "\
Decision points
1) **Scope** (single-select): Choose one
  1. Option A
Plan
2) **Ghost** (single-select): Never seen
  1. Option Z
";
    let round = parse_plan_question_round(text).expect("expected round");
    assert_eq!(round.questions.len(), 1);
    assert_eq!(round.questions[0].label, "Scope");
}

#[test]
fn parse_synthesizes_label_without_bold_span() {
    let text = "\
Decision points
3) Pick one (single-select): Which way
  1. Option A
  2. Option B
";
    let round = parse_plan_question_round(text).expect("expected round");
    assert_eq!(round.questions[0].label, "Question 3");
}

#[test]
fn parse_question_without_options_gets_only_the_sentinel() {
    let text = "\
Decision points
1) **Scope** (single-select): Choose one
";
    let round = parse_plan_question_round(text).expect("expected round");
    assert_eq!(round.questions.len(), 1);
    assert_eq!(round.questions[0].options.len(), 1);
    assert!(round.questions[0].options[0].is_free_text);
    assert_eq!(round.questions[0].options[0].title, "(None) Type your answer");
}

#[test]
fn parse_header_tolerates_markdown_prefix_and_suffix() {
    let text = "\
## Decision Points: round one
1) **Scope** (single-select): Choose one
  1. Option A
";
    let round = parse_plan_question_round(text).expect("expected round");
    assert_eq!(round.questions.len(), 1);
}
