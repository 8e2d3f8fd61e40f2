//! The decision-round data model: options, questions, rounds and answers.

use vstd::prelude::*;

verus! {

/// Whether a question takes one selection or several.
#[derive(Clone, Copy, Debug, PartialEq, Eq, Structural)]
pub enum QuestionKind {
    SingleSelect,
    MultiSelect,
}

/// One selectable option of a question.
#[derive(Clone, Debug, PartialEq, Eq)]
pub struct QuestionOption {
    pub title: String,
    pub description: Option<String>,
    pub is_free_text: bool,
}

/// One question of a round.
#[derive(Clone, Debug, PartialEq, Eq)]
pub struct PlanQuestion {
    pub label: String,
    pub prompt: String,
    pub kind: QuestionKind,
    pub options: Vec<QuestionOption>,
}

/// A round of questions, immutable once produced by the parser.
#[derive(Clone, Debug, PartialEq, Eq)]
pub struct PlanQuestionRound {
    pub questions: Vec<PlanQuestion>,
}

/// The operator's answer to one question: selected option indices or free
/// text, never meaningfully both.
#[derive(Clone, Debug, PartialEq, Eq)]
pub struct QuestionAnswer {
    pub selected_option_indices: Vec<usize>,
    pub free_text: Option<String>,
}

/// Mathematical model of a [`QuestionOption`].
pub ghost struct OptionV {
    pub title: Seq<char>,
    pub description: Option<Seq<char>>,
    pub is_free_text: bool,
}

/// Mathematical model of a [`PlanQuestion`].
pub ghost struct QuestionV {
    pub label: Seq<char>,
    pub prompt: Seq<char>,
    pub kind: QuestionKind,
    pub options: Seq<OptionV>,
}

/// Mathematical model of a [`PlanQuestionRound`].
pub ghost struct RoundV {
    pub questions: Seq<QuestionV>,
}

/// Mathematical model of a [`QuestionAnswer`].
pub ghost struct AnswerV {
    pub selected: Seq<usize>,
    pub free_text: Option<Seq<char>>,
}

impl View for QuestionOption {
    type V = OptionV;

    open spec fn view(&self) -> OptionV {
        OptionV { title: self.title@, description: self.description.deep_view(), is_free_text: self.is_free_text }
    }
}

impl DeepView for QuestionOption {
    type V = OptionV;

    open spec fn deep_view(&self) -> OptionV {
        self.view()
    }
}

impl View for PlanQuestion {
    type V = QuestionV;

    open spec fn view(&self) -> QuestionV {
        QuestionV {
            label: self.label@,
            prompt: self.prompt@,
            kind: self.kind,
            options: self.options.deep_view(),
        }
    }
}

impl DeepView for PlanQuestion {
    type V = QuestionV;

    open spec fn deep_view(&self) -> QuestionV {
        self.view()
    }
}

impl View for PlanQuestionRound {
    type V = RoundV;

    open spec fn view(&self) -> RoundV {
        RoundV { questions: self.questions.deep_view() }
    }
}

impl DeepView for PlanQuestionRound {
    type V = RoundV;

    open spec fn deep_view(&self) -> RoundV {
        self.view()
    }
}

impl View for QuestionAnswer {
    type V = AnswerV;

    open spec fn view(&self) -> AnswerV {
        AnswerV { selected: self.selected_option_indices@, free_text: self.free_text.deep_view() }
    }
}

impl DeepView for QuestionAnswer {
    type V = AnswerV;

    open spec fn deep_view(&self) -> AnswerV {
        self.view()
    }
}

/// The parser guarantees this of every question it emits: one to five
/// options, the last of which is the free-text sentinel.
pub open spec fn question_wf(q: QuestionV) -> bool {
    &&& 1 <= q.options.len() <= 5
    &&& q.options.last().is_free_text
}

/// A question whose free-text sentinel is unique as well as last.
pub open spec fn question_single_sentinel(q: QuestionV) -> bool {
    &&& question_wf(q)
    &&& forall|i: int| 0 <= i < q.options.len() - 1 ==> !q.options[i].is_free_text
}

/// The round invariant: one to five well-formed questions.
pub open spec fn round_wf(r: RoundV) -> bool {
    &&& 1 <= r.questions.len() <= 5
    &&& forall|i: int| 0 <= i < r.questions.len() ==> question_wf(#[trigger] r.questions[i])
}

/// The answer invariant, relative to the question it answers: selected
/// indices are strictly ascending positions among the question's options,
/// and a non-empty selection excludes stored free text.
pub open spec fn answer_wf(a: AnswerV, q: QuestionV) -> bool {
    &&& forall|i: int| 0 <= i < a.selected.len() ==> (#[trigger] a.selected[i]) < q.options.len()
    &&& forall|i: int, j: int| 0 <= i < j < a.selected.len() ==> a.selected[i] < a.selected[j]
    &&& a.selected.len() > 0 ==> a.free_text is None
}

/// An answer with nothing selected and nothing typed.
pub open spec fn empty_answer() -> AnswerV {
    AnswerV { selected: Seq::empty(), free_text: None }
}

/// The title of the canonical free-text sentinel option.
pub open spec fn sentinel_title() -> Seq<char> {
    "(None) Type your answer"@
}

/// The canonical free-text sentinel option.
pub open spec fn sentinel_option() -> OptionV {
    OptionV { title: sentinel_title(), description: None, is_free_text: true }
}

} // verus!
