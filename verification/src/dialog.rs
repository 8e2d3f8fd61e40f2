//! The dialog state machine: one round, the operator's answers so far, a
//! tab cursor over the questions plus a virtual submit tab, an option
//! cursor, and a free-text editing sub-mode.  Input events drive it until
//! it either cancels or submits exactly one encoded reply.

use vstd::prelude::*;

use crate::codec::{answer_is_nonempty, format_answers, spec_answer_nonempty, spec_encode};
use vstd::string::StringExecFns;
use crate::model::{answer_wf, round_wf, AnswerV, PlanQuestion, PlanQuestionRound, QuestionAnswer, QuestionKind, RoundV};
use crate::text::{chars_to_string, normalize_chars, normalize_ws, str_to_chars};

verus! {

/// One abstract operator input: what the key decoding hands the machine.
pub enum PlanInputEvent {
    /// Abandon the round; nothing is emitted.
    Cancel,
    /// Move one tab to the left.
    NavLeft,
    /// Move one tab to the right, submitting from the last question when
    /// every answer is given.
    NavRight,
    /// Move the option cursor up, wrapping.
    CursorUp,
    /// Move the option cursor down, wrapping.
    CursorDown,
    /// Act on the option under the cursor, or submit on the submit tab.
    Activate,
    /// A typed character: a quick-select digit outside free-text editing,
    /// literal input inside it.
    Char(char),
    /// Remove the last character of the free-text buffer.
    Backspace,
    /// Pasted text for the free-text buffer.
    Paste(String),
}

/// The interactive answer-collection state for one round.
pub struct PlanQuestionsView {
    pub round: PlanQuestionRound,
    pub active_tab: usize,
    pub selected_idx: Option<usize>,
    pub answers: Vec<QuestionAnswer>,
    pub complete: bool,
    pub error: Option<String>,
    pub free_text_editor: Vec<char>,
    pub is_editing_free_text: bool,
    pub submission: Option<String>,
}

/// Mathematical model of a [`PlanQuestionsView`].
pub ghost struct DialogV {
    pub round: RoundV,
    pub active_tab: int,
    pub cursor: Option<int>,
    pub answers: Seq<AnswerV>,
    pub complete: bool,
    pub error: Option<Seq<char>>,
    pub editor: Seq<char>,
    pub editing: bool,
    pub submission: Option<Seq<char>>,
}

impl View for PlanQuestionsView {
    type V = DialogV;

    open spec fn view(&self) -> DialogV {
        DialogV {
            round: self.round@,
            active_tab: self.active_tab as int,
            cursor: match self.selected_idx {
                Some(i) => Some(i as int),
                None => None,
            },
            answers: self.answers.deep_view(),
            complete: self.complete,
            error: self.error.deep_view(),
            editor: self.free_text_editor@,
            editing: self.is_editing_free_text,
            submission: self.submission.deep_view(),
        }
    }
}

/// The number of question tabs; the tab with this index is the submit tab.
pub open spec fn tab_count(d: DialogV) -> int {
    d.round.questions.len() as int
}

/// The dialog invariant: a well-formed round, index-aligned well-formed
/// answers, the tab on a question or the submit tab, the option cursor on
/// an option of the active question, and the editing sub-mode only on a
/// question whose answer holds a free-text value.
pub open spec fn dialog_inv(d: DialogV) -> bool {
    &&& round_wf(d.round)
    &&& d.answers.len() == d.round.questions.len()
    &&& 0 <= d.active_tab <= tab_count(d)
    &&& forall|i: int| 0 <= i < d.answers.len() ==> answer_wf(
        #[trigger] d.answers[i],
        d.round.questions[i],
    )
    &&& (d.active_tab < tab_count(d) ==> match d.cursor {
        Some(c) => 0 <= c < d.round.questions[d.active_tab].options.len(),
        None => false,
    })
    &&& (d.editing ==> d.active_tab < tab_count(d) && d.answers[d.active_tab].free_text is Some)
}

/// The freshly opened dialog: first tab, cursor on the first option, all
/// answers empty.
pub open spec fn spec_new(r: RoundV) -> DialogV {
    DialogV {
        round: r,
        active_tab: 0,
        cursor: Some(0),
        answers: Seq::new(r.questions.len(), |i: int| crate::model::empty_answer()),
        complete: false,
        error: None,
        editor: Seq::empty(),
        editing: false,
        submission: None,
    }
}

/// A pending free-text edit committed: the buffer normalized and saved
/// into the active answer, the editing sub-mode left.
pub open spec fn spec_save_free_text(d: DialogV) -> DialogV {
    if !d.editing {
        d
    } else {
        let norm = normalize_ws(d.editor);
        let answers = if 0 <= d.active_tab < d.answers.len() && d.answers[d.active_tab].free_text is Some {
            d.answers.update(
                d.active_tab,
                AnswerV { free_text: Some(norm), ..d.answers[d.active_tab] },
            )
        } else {
            d.answers
        };
        DialogV { answers, editor: norm, editing: false, ..d }
    }
}

/// The option cursor reset for the active tab: on the first option of a
/// question tab, absent on the submit tab; editing left.
pub open spec fn spec_cursor_reset(d: DialogV) -> DialogV {
    DialogV {
        editing: false,
        cursor: if d.active_tab < tab_count(d) && d.round.questions[d.active_tab].options.len() > 0 {
            Some(0)
        } else {
            None
        },
        ..d
    }
}

/// Whether every answer is given.
pub open spec fn spec_all_answered(d: DialogV) -> bool {
    forall|i: int| 0 <= i < d.answers.len() ==> spec_answer_nonempty(#[trigger] d.answers[i])
}

/// The operator-visible message set when submission is refused.
pub open spec fn error_message() -> Seq<char> {
    "Answer all questions to submit."@
}

/// The submit transition: with any answer missing, an error and a reset to
/// the first tab; otherwise exactly one encoded reply and completion.
pub open spec fn spec_submit(d: DialogV) -> DialogV {
    let s = spec_save_free_text(d);
    if !spec_all_answered(s) {
        spec_cursor_reset(DialogV { error: Some(error_message()), active_tab: 0, ..s })
    } else {
        DialogV {
            submission: Some(spec_encode(s.round.questions, s.answers)),
            complete: true,
            ..s
        }
    }
}

/// One tab to the left, committing a pending edit.
pub open spec fn spec_move_tab_left(d: DialogV) -> DialogV {
    if d.active_tab > 0 {
        let s = spec_save_free_text(d);
        spec_cursor_reset(DialogV { active_tab: d.active_tab - 1, ..s })
    } else {
        d
    }
}

/// One tab to the right, committing a pending edit; reaching the submit
/// tab with every answer given submits.
pub open spec fn spec_move_tab_right(d: DialogV) -> DialogV {
    if d.active_tab < tab_count(d) {
        let s = DialogV { active_tab: d.active_tab + 1, ..spec_save_free_text(d) };
        if s.active_tab == tab_count(d) && spec_all_answered(s) {
            spec_submit(s)
        } else {
            spec_cursor_reset(s)
        }
    } else {
        d
    }
}

/// The option cursor moved up with wrap-around; nothing moves while
/// editing or on the submit tab.
pub open spec fn spec_move_up(d: DialogV) -> DialogV {
    if d.editing || d.active_tab >= tab_count(d) {
        d
    } else {
        let n = d.round.questions[d.active_tab].options.len() as int;
        match d.cursor {
            Some(c) => DialogV {
                cursor: Some(if c == 0 { n - 1 } else { c - 1 }),
                ..d
            },
            None => d,
        }
    }
}

/// The option cursor moved down with wrap-around; nothing moves while
/// editing or on the submit tab.
pub open spec fn spec_move_down(d: DialogV) -> DialogV {
    if d.editing || d.active_tab >= tab_count(d) {
        d
    } else {
        let n = d.round.questions[d.active_tab].options.len() as int;
        match d.cursor {
            Some(c) => DialogV {
                cursor: Some(if c + 1 >= n { 0 } else { c + 1 }),
                ..d
            },
            None => d,
        }
    }
}

/// The position of the first element not below `idx` in an ascending
/// selection: where `idx` sits or would be inserted.
pub open spec fn first_ge(sel: Seq<usize>, idx: usize) -> int
    decreases sel.len(),
{
    if sel.len() == 0 {
        0
    } else if sel[0] >= idx {
        0
    } else {
        1 + first_ge(sel.drop_first(), idx)
    }
}

/// `first_ge` is in bounds, everything before it is below `idx`, and
/// everything from it on is at least `idx` when the selection ascends.
pub proof fn lemma_first_ge(sel: Seq<usize>, idx: usize)
    requires
        forall|i: int, j: int| 0 <= i < j < sel.len() ==> sel[i] < sel[j],
    ensures
        0 <= first_ge(sel, idx) <= sel.len(),
        forall|i: int| 0 <= i < first_ge(sel, idx) ==> sel[i] < idx,
        forall|i: int| first_ge(sel, idx) <= i < sel.len() ==> sel[i] >= idx,
    decreases sel.len(),
{
    if sel.len() > 0 && sel[0] < idx {
        assert(forall|i: int, j: int|
            0 <= i < j < sel.drop_first().len() ==> sel.drop_first()[i] < sel.drop_first()[j]);
        lemma_first_ge(sel.drop_first(), idx);
        let p = first_ge(sel, idx);
        assert forall|i: int| 0 <= i < p implies sel[i] < idx by {
            if i > 0 {
                assert(sel.drop_first()[i - 1] < idx);
            }
        }
        assert forall|i: int| p <= i < sel.len() implies sel[i] >= idx by {
            assert(sel.drop_first()[i - 1] >= idx);
        }
    }
}

/// An ascending selection with `idx` toggled: removed where present, else
/// inserted in place.
pub open spec fn spec_toggle_sel(sel: Seq<usize>, idx: usize) -> Seq<usize> {
    let p = first_ge(sel, idx);
    if p < sel.len() && sel[p] == idx {
        sel.remove(p)
    } else {
        sel.take(p) + seq![idx] + sel.skip(p)
    }
}

/// The activate transition: submit on the submit tab; on the free-text
/// sentinel, enter editing seeded with the saved free text and clear the
/// selection; on a single-select option, select it alone and advance; on a
/// multi-select option, toggle it.  Any error message is cleared first.
pub open spec fn spec_toggle(d0: DialogV) -> DialogV {
    let d = DialogV { error: None, ..d0 };
    if d.active_tab >= tab_count(d) {
        spec_submit(d)
    } else {
        match d.cursor {
            None => d,
            Some(c) => {
                let q = d.round.questions[d.active_tab];
                if !(0 <= c < q.options.len()) {
                    d
                } else if q.options[c].is_free_text {
                    let existing = match d.answers[d.active_tab].free_text {
                        Some(t) => t,
                        None => Seq::empty(),
                    };
                    DialogV {
                        answers: d.answers.update(
                            d.active_tab,
                            AnswerV { selected: Seq::empty(), free_text: Some(existing) },
                        ),
                        editor: existing,
                        editing: true,
                        ..d
                    }
                } else if q.kind == QuestionKind::SingleSelect {
                    let s = DialogV {
                        editing: false,
                        answers: d.answers.update(
                            d.active_tab,
                            AnswerV { selected: seq![c as usize], free_text: None },
                        ),
                        ..d
                    };
                    spec_move_tab_right(s)
                } else {
                    let a = d.answers[d.active_tab];
                    DialogV {
                        editing: false,
                        answers: d.answers.update(
                            d.active_tab,
                            AnswerV {
                                selected: spec_toggle_sel(a.selected, c as usize),
                                free_text: None,
                            },
                        ),
                        ..d
                    }
                }
            },
        }
    }
}

/// The quick-select transition for a typed digit: move the cursor to that
/// option, where there is one, and activate it.
pub open spec fn spec_quick_select(d: DialogV, c: char) -> DialogV {
    if '1' <= c && c <= '9' {
        let idx = c as u32 - 49;
        if d.active_tab < tab_count(d) && idx < d.round.questions[d.active_tab].options.len() {
            spec_toggle(DialogV { cursor: Some(idx as int), ..d })
        } else {
            d
        }
    } else {
        d
    }
}

/// One character of free-text input: appended to the buffer and mirrored,
/// un-normalized, into the active answer.
pub open spec fn spec_edit_char(d: DialogV, c: char) -> DialogV {
    let ed = d.editor.push(c);
    spec_set_editor(d, ed)
}

/// One character struck from the free-text buffer.
pub open spec fn spec_edit_backspace(d: DialogV) -> DialogV {
    if d.editor.len() == 0 {
        spec_set_editor(d, d.editor)
    } else {
        spec_set_editor(d, d.editor.drop_last())
    }
}

/// Pasted text: normalized, appended to the buffer, and mirrored into the
/// active answer; an empty paste changes nothing.
pub open spec fn spec_edit_paste(d: DialogV, s: Seq<char>) -> DialogV {
    if s.len() == 0 {
        d
    } else {
        spec_set_editor(d, d.editor + normalize_ws(s))
    }
}

/// The buffer replaced and mirrored into the active answer's free text,
/// where one is stored.
pub open spec fn spec_set_editor(d: DialogV, ed: Seq<char>) -> DialogV {
    let answers = if 0 <= d.active_tab < d.answers.len() && d.answers[d.active_tab].free_text is Some {
        d.answers.update(d.active_tab, AnswerV { free_text: Some(ed), ..d.answers[d.active_tab] })
    } else {
        d.answers
    };
    DialogV { editor: ed, answers, ..d }
}

/// The height the free-text editor asks for: nothing outside editing, else
/// the buffer's row count at the given width, held between one and three.
pub open spec fn spec_editor_height(d: DialogV, width: int) -> int {
    if !d.editing {
        0
    } else {
        let w = if width < 1 {
            1
        } else {
            width
        };
        let rows = d.editor.len() as int / w + (if d.editor.len() as int % w > 0 {
            1int
        } else {
            0int
        });
        if rows < 1 {
            1
        } else if rows > 3 {
            3
        } else {
            rows
        }
    }
}

/// How one input event advances the dialog.  A complete dialog ignores
/// every further event.
pub open spec fn spec_event(d: DialogV, ev: PlanInputEvent) -> DialogV {
    if d.complete {
        d
    } else if d.editing {
        match ev {
            PlanInputEvent::Cancel => DialogV { complete: true, ..d },
            PlanInputEvent::NavRight => spec_move_tab_right(spec_save_free_text(d)),
            PlanInputEvent::Activate => spec_move_tab_right(spec_save_free_text(d)),
            PlanInputEvent::Char(c) => spec_edit_char(d, c),
            PlanInputEvent::Backspace => spec_edit_backspace(d),
            PlanInputEvent::Paste(s) => spec_edit_paste(d, s@),
            _ => d,
        }
    } else {
        match ev {
            PlanInputEvent::Cancel => DialogV { complete: true, ..d },
            PlanInputEvent::NavLeft => spec_move_tab_left(d),
            PlanInputEvent::NavRight => spec_move_tab_right(d),
            PlanInputEvent::CursorUp => spec_move_up(d),
            PlanInputEvent::CursorDown => spec_move_down(d),
            PlanInputEvent::Activate => spec_toggle(d),
            PlanInputEvent::Char(c) => spec_quick_select(d, c),
            _ => d,
        }
    }
}

/// Activating the free-text sentinel clears any structured selection for
/// the question, and activating a structured option clears any stored free
/// text: the two answer representations exclude each other.
pub proof fn lemma_toggle_mutual_exclusion(d: DialogV, c: int)
    requires
        dialog_inv(d),
        d.active_tab < tab_count(d),
        d.cursor == Some(c),
        0 <= c < d.round.questions[d.active_tab].options.len(),
    ensures
        d.round.questions[d.active_tab].options[c].is_free_text ==> {
            let a = spec_toggle(d).answers[d.active_tab];
            a.selected.len() == 0 && a.free_text is Some
        },
        !d.round.questions[d.active_tab].options[c].is_free_text ==> spec_toggle(
            d,
        ).answers[d.active_tab].free_text is None,
{
    let d1 = DialogV { error: None, ..d };
    let q = d1.round.questions[d1.active_tab];
    if !q.options[c].is_free_text && q.kind == QuestionKind::SingleSelect {
        let s = DialogV {
            editing: false,
            answers: d1.answers.update(
                d1.active_tab,
                AnswerV { selected: seq![c as usize], free_text: None },
            ),
            ..d1
        };
        assert(spec_toggle(d) == spec_move_tab_right(s));
        assert(spec_save_free_text(s) == s);
        assert(spec_move_tab_right(s).answers == s.answers);
    }
}

/// A submission attempted while any answer is empty is refused: an error
/// message appears, the tab returns to the first question, and the dialog
/// neither completes nor emits a reply.
pub proof fn lemma_submit_refused(d: DialogV)
    requires
        dialog_inv(d),
        !spec_all_answered(spec_save_free_text(d)),
    ensures
        spec_submit(d).active_tab == 0,
        spec_submit(d).error is Some,
        spec_submit(d).complete == d.complete,
        spec_submit(d).submission == d.submission,
{
}

impl PlanQuestionsView {
    /// A dialog opened on a well-formed round: first tab, empty answers.
    pub fn new(round: PlanQuestionRound) -> (s: Self)
        requires
            round_wf(round@),
        ensures
            s@ == spec_new(round@),
            dialog_inv(s@),
    {
        let n = round.questions.len();
        let mut answers: Vec<QuestionAnswer> = Vec::new();
        let mut i: usize = 0;
        while i < n
            invariant
                i <= n,
                answers@.len() == i,
                forall|j: int| 0 <= j < i ==> (#[trigger] answers@[j])@
                    == crate::model::empty_answer(),
            decreases n - i,
        {
            answers.push(QuestionAnswer { selected_option_indices: Vec::new(), free_text: None });
            i += 1;
        }
        let s = PlanQuestionsView {
            round,
            active_tab: 0,
            selected_idx: Some(0),
            answers,
            complete: false,
            error: None,
            free_text_editor: Vec::new(),
            is_editing_free_text: false,
            submission: None,
        };
        proof {
            assert(s@.answers =~= spec_new(s.round@).answers);
            assert(s@.editor =~= spec_new(s.round@).editor);
        }
        s
    }

    /// The question under the tab cursor, absent on the submit tab.
    pub fn active_question(&self) -> (r: Option<&PlanQuestion>)
        ensures
            match r {
                Some(q) => self@.active_tab < tab_count(self@) && q@ == self@.round.questions[self@.active_tab],
                None => self@.active_tab >= tab_count(self@),
            },
    {
        if self.active_tab < self.round.questions.len() {
            Some(&self.round.questions[self.active_tab])
        } else {
            None
        }
    }

    /// The answer under the tab cursor, absent on the submit tab.
    pub fn active_answer(&self) -> (r: Option<&QuestionAnswer>)
        ensures
            match r {
                Some(a) => self@.active_tab < self@.answers.len() && a@ == self@.answers[self@.active_tab],
                None => self@.active_tab >= self@.answers.len(),
            },
    {
        if self.active_tab < self.answers.len() {
            Some(&self.answers[self.active_tab])
        } else {
            None
        }
    }

    /// Whether the tab cursor stands on the virtual submit step.
    pub fn is_submit_tab(&self) -> (r: bool)
        ensures
            r == (self@.active_tab >= tab_count(self@)),
    {
        self.active_tab >= self.round.questions.len()
    }

    /// Whether the interaction has ended, by submission or cancellation.
    pub fn is_complete(&self) -> (r: bool)
        ensures
            r == self@.complete,
    {
        self.complete
    }

    /// The interaction abandoned: terminal, and nothing is emitted.
    pub fn cancel(&mut self)
        ensures
            final(self)@ == (DialogV { complete: true, ..old(self)@ }),
    {
        self.complete = true;
    }

    /// The answer at `i` replaced.
    fn set_answer(&mut self, i: usize, a: QuestionAnswer)
        requires
            i < old(self).answers@.len(),
        ensures
            final(self)@ == (DialogV {
                answers: old(self)@.answers.update(i as int, a@),
                ..old(self)@
            }),
    {
        let _ = self.answers.remove(i);
        self.answers.insert(i, a);
        proof {
            assert(self@.answers =~= old(self)@.answers.update(i as int, a@));
        }
    }

    /// The option cursor reset for the active tab; editing left.
    pub fn reset_option_cursor(&mut self)
        ensures
            final(self)@ == spec_cursor_reset(old(self)@),
    {
        self.is_editing_free_text = false;
        if self.active_tab < self.round.questions.len() {
            let len = self.round.questions[self.active_tab].options.len();
            if len > 0 {
                self.selected_idx = Some(0);
            } else {
                self.selected_idx = None;
            }
        } else {
            self.selected_idx = None;
        }
    }

    /// A pending free-text edit committed into the active answer.
    pub fn save_active_free_text(&mut self)
        requires
            dialog_inv(old(self)@),
        ensures
            final(self)@ == spec_save_free_text(old(self)@),
            dialog_inv(final(self)@),
    {
        if !self.is_editing_free_text {
            return;
        }
        let normalized = normalize_chars(&self.free_text_editor);
        let tab = self.active_tab;
        if tab < self.answers.len() {
            if self.answers[tab].free_text.is_some() {
                let mut a = self.answers.remove(tab);
                let ghost av = a@;
                a.free_text = Some(chars_to_string(&normalized));
                self.answers.insert(tab, a);
                proof {
                    assert(self@.answers =~= old(self)@.answers.update(
                        tab as int,
                        AnswerV { free_text: Some(normalize_ws(old(self)@.editor)), ..av },
                    ));
                }
            }
        }
        self.free_text_editor = normalized;
        self.is_editing_free_text = false;
    }

    /// One tab to the left, committing a pending edit.
    pub fn move_tab_left(&mut self)
        requires
            dialog_inv(old(self)@),
        ensures
            final(self)@ == spec_move_tab_left(old(self)@),
            dialog_inv(final(self)@),
    {
        if self.active_tab > 0 {
            self.save_active_free_text();
            self.active_tab -= 1;
            self.reset_option_cursor();
        }
    }

    /// Whether every answer is given.
    fn all_answered(&self) -> (r: bool)
        ensures
            r == spec_all_answered(self@),
    {
        let n = self.answers.len();
        let mut i: usize = 0;
        while i < n
            invariant
                i <= n,
                n == self.answers@.len(),
                forall|k: int| 0 <= k < i ==> spec_answer_nonempty(#[trigger] self@.answers[k]),
            decreases n - i,
        {
            if !answer_is_nonempty(&self.answers[i]) {
                proof {
                    assert(!spec_answer_nonempty(self@.answers[i as int]));
                }
                return false;
            }
            i += 1;
        }
        true
    }

    /// The submit transition: refused with an error and a reset to the
    /// first tab while any answer is missing; otherwise the reply is
    /// encoded, stored as the one submission, and the dialog completes.
    pub fn submit(&mut self)
        requires
            dialog_inv(old(self)@),
        ensures
            final(self)@ == spec_submit(old(self)@),
            dialog_inv(final(self)@),
    {
        self.save_active_free_text();
        if !self.all_answered() {
            self.error = Some(String::from_str("Answer all questions to submit."));
            self.active_tab = 0;
            self.reset_option_cursor();
            return;
        }
        proof {
            assert forall|i: int| 0 <= i < self.answers@.len() implies answer_wf(
                (#[trigger] self.answers@[i])@,
                self.round.questions@[i]@,
            ) by {
                assert(answer_wf(self@.answers[i], self@.round.questions[i]));
            }
        }
        let formatted = format_answers(&self.round, &self.answers);
        self.submission = Some(formatted);
        self.complete = true;
    }

    /// One tab to the right, committing a pending edit; reaching the
    /// submit tab with every answer given submits.
    pub fn move_tab_right(&mut self)
        requires
            dialog_inv(old(self)@),
        ensures
            final(self)@ == spec_move_tab_right(old(self)@),
            dialog_inv(final(self)@),
    {
        let max = self.round.questions.len();
        if self.active_tab < max {
            self.save_active_free_text();
            self.active_tab += 1;
            if self.active_tab == max && self.all_answered() {
                self.submit();
                return;
            }
            self.reset_option_cursor();
        }
    }

    /// The option cursor moved up with wrap-around.
    pub fn move_up(&mut self)
        requires
            dialog_inv(old(self)@),
        ensures
            final(self)@ == spec_move_up(old(self)@),
            dialog_inv(final(self)@),
    {
        if self.is_editing_free_text {
            return;
        }
        if self.active_tab >= self.round.questions.len() {
            return;
        }
        let len = self.round.questions[self.active_tab].options.len();
        match self.selected_idx {
            Some(c) => {
                self.selected_idx = Some(if c == 0 { len - 1 } else { c - 1 });
            },
            None => {},
        }
    }

    /// An ascending selection with `idx` toggled, executably.
    fn toggle_sorted(sel: Vec<usize>, idx: usize) -> (r: Vec<usize>)
        requires
            forall|i: int, j: int| 0 <= i < j < sel@.len() ==> sel@[i] < sel@[j],
        ensures
            r@ == spec_toggle_sel(sel@, idx),
    {
        let mut sel = sel;
        let m = sel.len();
        let mut p: usize = 0;
        proof {
            assert(sel@.skip(0) =~= sel@);
        }
        while p < m && sel[p] < idx
            invariant
                p <= m,
                m == sel@.len(),
                first_ge(sel@, idx) == p + first_ge(sel@.skip(p as int), idx),
            decreases m - p,
        {
            proof {
                assert(sel@.skip(p as int).drop_first() =~= sel@.skip(p + 1 as int));
            }
            p += 1;
        }
        proof {
            if p == m {
                assert(sel@.skip(p as int) =~= Seq::<usize>::empty());
            }
            assert(first_ge(sel@, idx) == p as int);
        }
        if p < m && sel[p] == idx {
            let _ = sel.remove(p);
            sel
        } else {
            let ghost sel_pre = sel@;
            sel.insert(p, idx);
            proof {
                assert(sel@ =~= sel_pre.take(p as int) + seq![idx] + sel_pre.skip(p as int));
            }
            sel
        }
    }

    /// The activate transition: submit on the submit tab; enter free-text
    /// editing on the sentinel, clearing the structured selection; select
    /// and advance on a single-select option; toggle on a multi-select
    /// option.
    #[verifier::rlimit(100)]
    pub fn toggle_selected(&mut self)
        requires
            dialog_inv(old(self)@),
        ensures
            final(self)@ == spec_toggle(old(self)@),
            dialog_inv(final(self)@),
    {
        self.error = None;
        if self.active_tab >= self.round.questions.len() {
            self.submit();
            return;
        }
        let c = match self.selected_idx {
            Some(c) => c,
            None => {
                return;
            },
        };
        let tab = self.active_tab;
        if c >= self.round.questions[tab].options.len() {
            return;
        }
        let option_is_free_text = self.round.questions[tab].options[c].is_free_text;
        let kind = self.round.questions[tab].kind;

        if option_is_free_text {
            let mut a = self.answers.remove(tab);
            let ghost av = a@;
            a.selected_option_indices = Vec::new();
            let existing: String = match a.free_text.take() {
                Some(t) => t,
                None => String::new(),
            };
            let existing_chars = str_to_chars(existing.as_str());
            a.free_text = Some(existing);
            self.answers.insert(tab, a);
            self.free_text_editor = existing_chars;
            self.is_editing_free_text = true;
            proof {
                let d = DialogV { error: None, ..old(self)@ };
                let ex = match d.answers[tab as int].free_text {
                    Some(t) => t,
                    None => Seq::<char>::empty(),
                };
                assert(self@.answers =~= d.answers.update(
                    tab as int,
                    AnswerV { selected: Seq::empty(), free_text: Some(ex) },
                ));
            }
            return;
        }

        self.is_editing_free_text = false;
        if kind == QuestionKind::SingleSelect {
            let mut a = self.answers.remove(tab);
            a.free_text = None;
            let mut one: Vec<usize> = Vec::new();
            one.push(c);
            a.selected_option_indices = one;
            self.answers.insert(tab, a);
            proof {
                let d = DialogV { error: None, ..old(self)@ };
                assert(self@.answers =~= d.answers.update(
                    tab as int,
                    AnswerV { selected: seq![c], free_text: None },
                ));
                assert(dialog_inv(self@));
            }
            self.move_tab_right();
        } else {
            let mut a = self.answers.remove(tab);
            let ghost sel0 = a.selected_option_indices@;
            a.free_text = None;
            a.selected_option_indices = Self::toggle_sorted(a.selected_option_indices, c);
            self.answers.insert(tab, a);
            proof {
                let d = DialogV { error: None, ..old(self)@ };
                assert(self@.answers =~= d.answers.update(
                    tab as int,
                    AnswerV { selected: spec_toggle_sel(sel0, c), free_text: None },
                ));
                lemma_first_ge(sel0, c);
                let p = first_ge(sel0, c);
                if !(p < sel0.len() && sel0[p] == c) {
                    assert forall|i: int, j: int|
                        0 <= i < j < spec_toggle_sel(sel0, c).len() implies spec_toggle_sel(
                        sel0,
                        c,
                    )[i] < spec_toggle_sel(sel0, c)[j] by {
                        let t = spec_toggle_sel(sel0, c);
                        assert(t =~= sel0.take(p) + seq![c] + sel0.skip(p));
                    }
                }
                assert(dialog_inv(self@));
            }
        }
    }

    /// The quick-select transition for a typed digit: the cursor moved to
    /// that option, where there is one, then activated.
    pub fn quick_select(&mut self, c: char)
        requires
            dialog_inv(old(self)@),
        ensures
            final(self)@ == spec_quick_select(old(self)@, c),
            dialog_inv(final(self)@),
    {
        if !('1' <= c && c <= '9') {
            return;
        }
        let idx = (c as u32 - 49) as usize;
        if self.active_tab >= self.round.questions.len() {
            return;
        }
        if idx < self.round.questions[self.active_tab].options.len() {
            self.selected_idx = Some(idx);
            self.toggle_selected();
        }
    }

    /// The free-text buffer replaced and mirrored, un-normalized, into the
    /// active answer where one is stored.
    fn set_editor_text(&mut self, ed: Vec<char>)
        ensures
            final(self)@ == spec_set_editor(old(self)@, ed@),
    {
        let tab = self.active_tab;
        if tab < self.answers.len() {
            if self.answers[tab].free_text.is_some() {
                let mut a = self.answers.remove(tab);
                let ghost av = a@;
                a.free_text = Some(chars_to_string(&ed));
                self.answers.insert(tab, a);
                proof {
                    assert(self@.answers =~= old(self)@.answers.update(
                        tab as int,
                        AnswerV { free_text: Some(ed@), ..av },
                    ));
                }
            }
        }
        self.free_text_editor = ed;
    }

    /// Pasted text while editing: normalized, appended to the buffer, and
    /// mirrored into the active answer.  Anything else is not consumed.
    pub fn handle_paste(&mut self, pasted: String) -> (r: bool)
        requires
            dialog_inv(old(self)@),
        ensures
            final(self)@ == (if old(self)@.editing {
                spec_edit_paste(old(self)@, pasted@)
            } else {
                old(self)@
            }),
            r == (old(self)@.editing && pasted@.len() > 0),
            dialog_inv(final(self)@),
    {
        if !self.is_editing_free_text {
            return false;
        }
        if pasted.as_str().is_empty() {
            return false;
        }
        let pv = str_to_chars(pasted.as_str());
        let mut norm = normalize_chars(&pv);
        let mut ed = crate::text::sub_chars(&self.free_text_editor, 0, self.free_text_editor.len());
        proof {
            assert(ed@ =~= self@.editor);
        }
        ed.append(&mut norm);
        self.set_editor_text(ed);
        true
    }

    /// One input event consumed; a complete dialog ignores it.
    pub fn handle_event(&mut self, event: PlanInputEvent)
        requires
            dialog_inv(old(self)@),
        ensures
            final(self)@ == spec_event(old(self)@, event),
            dialog_inv(final(self)@),
    {
        if self.complete {
            return;
        }
        if self.is_editing_free_text {
            match event {
                PlanInputEvent::Cancel => {
                    self.complete = true;
                },
                PlanInputEvent::NavRight => {
                    self.save_active_free_text();
                    self.move_tab_right();
                },
                PlanInputEvent::Activate => {
                    self.save_active_free_text();
                    self.move_tab_right();
                },
                PlanInputEvent::Char(c) => {
                    let mut ed = crate::text::sub_chars(
                        &self.free_text_editor,
                        0,
                        self.free_text_editor.len(),
                    );
                    proof {
                        assert(ed@ =~= self@.editor);
                    }
                    ed.push(c);
                    self.set_editor_text(ed);
                },
                PlanInputEvent::Backspace => {
                    let mut ed = crate::text::sub_chars(
                        &self.free_text_editor,
                        0,
                        self.free_text_editor.len(),
                    );
                    proof {
                        assert(ed@ =~= self@.editor);
                    }
                    if ed.len() > 0 {
                        let _ = ed.pop();
                    }
                    self.set_editor_text(ed);
                },
                PlanInputEvent::Paste(s) => {
                    let _ = self.handle_paste(s);
                },
                _ => {},
            }
        } else {
            match event {
                PlanInputEvent::Cancel => {
                    self.complete = true;
                },
                PlanInputEvent::NavLeft => self.move_tab_left(),
                PlanInputEvent::NavRight => self.move_tab_right(),
                PlanInputEvent::CursorUp => self.move_up(),
                PlanInputEvent::CursorDown => self.move_down(),
                PlanInputEvent::Activate => self.toggle_selected(),
                PlanInputEvent::Char(c) => self.quick_select(c),
                _ => {},
            }
        }
    }

    /// The height the free-text editor asks for at a given width.
    pub fn free_text_editor_height(&self, width: u16) -> (r: u16)
        ensures
            r as int == spec_editor_height(self@, width as int),
            !self@.editing ==> r == 0,
            self@.editing ==> 1 <= r <= 3,
    {
        if !self.is_editing_free_text {
            return 0;
        }
        let w: usize = if width == 0 {
            1
        } else {
            width as usize
        };
        let len = self.free_text_editor.len();
        let q = len / w;
        let rows = if q >= 3 {
            3
        } else {
            q + (if len % w > 0 { 1 } else { 0 })
        };
        let clamped = if rows < 1 {
            1
        } else if rows > 3 {
            3
        } else {
            rows
        };
        clamped as u16
    }

    /// The option cursor moved down with wrap-around.
    pub fn move_down(&mut self)
        requires
            dialog_inv(old(self)@),
        ensures
            final(self)@ == spec_move_down(old(self)@),
            dialog_inv(final(self)@),
    {
        if self.is_editing_free_text {
            return;
        }
        if self.active_tab >= self.round.questions.len() {
            return;
        }
        let len = self.round.questions[self.active_tab].options.len();
        match self.selected_idx {
            Some(c) => {
                self.selected_idx = Some(if c + 1 >= len { 0 } else { c + 1 });
            },
            None => {},
        }
    }
}

} // verus!
