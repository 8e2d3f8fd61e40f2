use plan_questions::codec::{answer_is_nonempty, format_answers, normalize_free_text};
use plan_questions::model::{
    PlanQuestion, PlanQuestionRound, QuestionAnswer, QuestionKind, QuestionOption,
};

fn question(kind: QuestionKind, n_options: usize) -> PlanQuestion {
    let mut options: Vec<QuestionOption> = (0..n_options - 1)
        .map(|i| QuestionOption {
            title: format!("Option {i}"),
            description: None,
            is_free_text: false,
        })
        .collect();
    options.push(QuestionOption {
        title: "(None) Type your answer".to_string(),
        description: None,
        is_free_text: true,
    });
    PlanQuestion {
        label: "Q".to_string(),
        prompt: "Pick".to_string(),
        kind,
        options,
    }
}

fn selected(indices: &[usize]) -> QuestionAnswer {
    QuestionAnswer {
        selected_option_indices: indices.to_vec(),
        free_text: None,
    }
}

fn typed(text: &str) -> QuestionAnswer {
    QuestionAnswer {
        selected_option_indices: Vec::new(),
        free_text: Some(text.to_string()),
    }
}

#[test]
fn multi_select_encodes_one_based_comma_list() {
    let round = PlanQuestionRound {
        questions: vec![question(QuestionKind::MultiSelect, 5)],
    };
    let answers = vec![selected(&[0, 2, 3])];
    assert_eq!(format_answers(&round, &answers), "1,3,4");
}

#[test]
fn single_select_encodes_one_based_index() {
    let round = PlanQuestionRound {
        questions: vec![question(QuestionKind::SingleSelect, 3)],
    };
    let answers = vec![selected(&[1])];
    assert_eq!(format_answers(&round, &answers), "2");
}

#[test]
fn free_text_is_emitted_verbatim_trimmed() {
    let round = PlanQuestionRound {
        questions: vec![
            question(QuestionKind::SingleSelect, 3),
            question(QuestionKind::MultiSelect, 3),
        ],
    };
    let answers = vec![typed("  my own answer  "), selected(&[0, 1])];
    assert_eq!(format_answers(&round, &answers), "my own answer\n1,2");
}

#[test]
fn blank_free_text_falls_back_to_selection() {
    let round = PlanQuestionRound {
        questions: vec![question(QuestionKind::SingleSelect, 3)],
    };
    let answers = vec![QuestionAnswer {
        selected_option_indices: vec![0],
        free_text: None,
    }];
    assert_eq!(format_answers(&round, &answers), "1");
}

#[test]
fn normalize_free_text_collapses_whitespace() {
    assert_eq!(normalize_free_text("  a \t b\n\nc  "), "a b c");
    assert_eq!(normalize_free_text("   "), "");
    assert_eq!(normalize_free_text("one"), "one");
}

#[test]
fn answer_is_nonempty_rules() {
    assert!(!answer_is_nonempty(&QuestionAnswer {
        selected_option_indices: Vec::new(),
        free_text: None,
    }));
    assert!(!answer_is_nonempty(&typed("   ")));
    assert!(answer_is_nonempty(&typed(" x ")));
    assert!(answer_is_nonempty(&selected(&[0])));
}
