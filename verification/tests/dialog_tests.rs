use plan_questions::dialog::{PlanInputEvent, PlanQuestionsView};
use plan_questions::model::{PlanQuestion, PlanQuestionRound, QuestionKind, QuestionOption};

fn option(title: &str, free_text: bool) -> QuestionOption {
    QuestionOption {
        title: title.to_string(),
        description: None,
        is_free_text: free_text,
    }
}

fn single_select_round(num_questions: usize) -> PlanQuestionRound {
    PlanQuestionRound {
        questions: (0..num_questions)
            .map(|idx| PlanQuestion {
                label: format!("Q{}", idx + 1),
                prompt: "Pick one".to_string(),
                kind: QuestionKind::SingleSelect,
                options: vec![
                    option("A", false),
                    option("(None) Type your answer", true),
                ],
            })
            .collect(),
    }
}

fn multi_select_round() -> PlanQuestionRound {
    PlanQuestionRound {
        questions: vec![PlanQuestion {
            label: "M".to_string(),
            prompt: "Select all".to_string(),
            kind: QuestionKind::MultiSelect,
            options: vec![
                option("A", false),
                option("B", false),
                option("C", false),
                option("D", false),
                option("(None) Type your answer", true),
            ],
        }],
    }
}

#[test]
fn single_select_last_answer_auto_submits() {
    let round = single_select_round(2);
    let mut view = PlanQuestionsView::new(round);

    view.handle_event(PlanInputEvent::Char('1'));
    assert!(!view.is_complete());

    view.handle_event(PlanInputEvent::Char('1'));
    assert!(view.is_complete());

    assert_eq!(view.submission.as_deref(), Some("1\n1"));
}

#[test]
fn plan_questions_single_select_last_answer_auto_submits() {
    let round = single_select_round(2);
    let mut view = PlanQuestionsView::new(round);

    view.handle_event(PlanInputEvent::Char('1'));
    assert!(!view.is_complete());

    view.handle_event(PlanInputEvent::Char('1'));
    assert!(view.is_complete());

    assert_eq!(view.submission.as_deref(), Some("1\n1"));
}

#[test]
fn submit_with_empty_answer_is_refused() {
    let round = single_select_round(1);
    let mut view = PlanQuestionsView::new(round);

    view.handle_event(PlanInputEvent::NavRight);
    assert!(view.is_submit_tab());
    view.handle_event(PlanInputEvent::Activate);

    assert!(!view.is_complete());
    assert!(view.error.is_some());
    assert_eq!(view.active_tab, 0);
    assert!(view.submission.is_none());
}

#[test]
fn multi_select_toggle_inserts_sorted_and_removes() {
    let round = multi_select_round();
    let mut view = PlanQuestionsView::new(round);

    view.handle_event(PlanInputEvent::Char('4'));
    view.handle_event(PlanInputEvent::Char('2'));
    assert_eq!(view.answers[0].selected_option_indices, vec![1, 3]);

    view.handle_event(PlanInputEvent::Char('4'));
    assert_eq!(view.answers[0].selected_option_indices, vec![1]);
}

#[test]
fn multi_select_submits_comma_list() {
    let round = multi_select_round();
    let mut view = PlanQuestionsView::new(round);

    view.handle_event(PlanInputEvent::Char('2'));
    view.handle_event(PlanInputEvent::Char('4'));
    view.handle_event(PlanInputEvent::Char('1'));
    view.handle_event(PlanInputEvent::NavRight);

    assert!(view.is_complete());
    assert_eq!(view.submission.as_deref(), Some("1,2,4"));
}

#[test]
fn free_text_sentinel_clears_selection_and_back() {
    let round = multi_select_round();
    let mut view = PlanQuestionsView::new(round);

    view.handle_event(PlanInputEvent::Char('1'));
    assert_eq!(view.answers[0].selected_option_indices, vec![0]);

    view.handle_event(PlanInputEvent::Char('5'));
    assert!(view.is_editing_free_text);
    assert!(view.answers[0].selected_option_indices.is_empty());
    assert!(view.answers[0].free_text.is_some());

    view.handle_event(PlanInputEvent::Char('h'));
    view.handle_event(PlanInputEvent::Char('i'));
    assert_eq!(view.answers[0].free_text.as_deref(), Some("hi"));

    view.handle_event(PlanInputEvent::NavLeft);
    assert!(view.is_editing_free_text);

    view.handle_event(PlanInputEvent::Activate);
    assert!(view.is_complete());
    assert_eq!(view.submission.as_deref(), Some("hi"));
}

#[test]
fn selecting_option_clears_free_text() {
    let round = single_select_round(2);
    let mut view = PlanQuestionsView::new(round);

    view.handle_event(PlanInputEvent::Char('2'));
    assert!(view.is_editing_free_text);
    view.handle_event(PlanInputEvent::Char('x'));
    view.handle_event(PlanInputEvent::NavRight);
    assert_eq!(view.active_tab, 1);
    assert_eq!(view.answers[0].free_text.as_deref(), Some("x"));

    view.handle_event(PlanInputEvent::NavLeft);
    view.handle_event(PlanInputEvent::Char('1'));

    assert!(view.answers[0].free_text.is_none());
    assert_eq!(view.answers[0].selected_option_indices, vec![0]);
}

#[test]
fn free_text_is_normalized_on_commit() {
    let round = single_select_round(1);
    let mut view = PlanQuestionsView::new(round);

    view.handle_event(PlanInputEvent::Char('2'));
    assert!(view.is_editing_free_text);
    for c in "  a   b  ".chars() {
        view.handle_event(PlanInputEvent::Char(c));
    }
    view.handle_event(PlanInputEvent::Activate);

    assert!(view.is_complete());
    assert_eq!(view.submission.as_deref(), Some("a b"));
}

#[test]
fn paste_while_editing_is_normalized_and_appended() {
    let round = single_select_round(1);
    let mut view = PlanQuestionsView::new(round);

    view.handle_event(PlanInputEvent::Char('2'));
    assert!(view.is_editing_free_text);
    view.handle_event(PlanInputEvent::Paste("  hello \n world ".to_string()));
    assert_eq!(view.answers[0].free_text.as_deref(), Some("hello world"));

    let mut other = PlanQuestionsView::new(single_select_round(1));
    assert!(!other.handle_paste("ignored".to_string()));
}

#[test]
fn cancel_completes_without_submission() {
    let round = single_select_round(2);
    let mut view = PlanQuestionsView::new(round);

    view.handle_event(PlanInputEvent::Cancel);
    assert!(view.is_complete());
    assert!(view.submission.is_none());
}

#[test]
fn cursor_wraps_and_backspace_edits() {
    let round = multi_select_round();
    let mut view = PlanQuestionsView::new(round);

    view.handle_event(PlanInputEvent::CursorUp);
    assert_eq!(view.selected_idx, Some(4));
    view.handle_event(PlanInputEvent::CursorDown);
    assert_eq!(view.selected_idx, Some(0));

    view.handle_event(PlanInputEvent::Char('5'));
    assert!(view.is_editing_free_text);
    view.handle_event(PlanInputEvent::Char('a'));
    view.handle_event(PlanInputEvent::Char('b'));
    view.handle_event(PlanInputEvent::Backspace);
    assert_eq!(view.answers[0].free_text.as_deref(), Some("a"));
}

#[test]
fn editor_height_is_clamped() {
    let round = single_select_round(1);
    let mut view = PlanQuestionsView::new(round);
    assert_eq!(view.free_text_editor_height(10), 0);

    view.handle_event(PlanInputEvent::Char('2'));
    assert!(view.is_editing_free_text);
    assert_eq!(view.free_text_editor_height(10), 1);
    for c in "abcdefghijklmnopqrstuvwxyz".chars() {
        view.handle_event(PlanInputEvent::Char(c));
    }
    assert_eq!(view.free_text_editor_height(10), 3);
    assert_eq!(view.free_text_editor_height(2), 3);
}

#[test]
fn navigation_left_of_first_tab_is_a_no_op() {
    let round = single_select_round(2);
    let mut view = PlanQuestionsView::new(round);
    view.handle_event(PlanInputEvent::NavLeft);
    assert_eq!(view.active_tab, 0);
    assert!(view.active_question().is_some());
    assert!(view.active_answer().is_some());
}
