//! The answer codec: collected answers to the line-based reply the agent
//! expects, one line per question, in question order.

use vstd::prelude::*;

use crate::model::{answer_wf, AnswerV, PlanQuestionRound, QuestionAnswer, QuestionKind, QuestionV};
use crate::text::{chars_to_string, dec_digits, normalize_chars, normalize_ws, str_to_chars, trim_chars, trim_ws, usize_to_chars};

verus! {

/// Free text as the state machine stores it: whitespace runs collapsed to
/// single spaces, the ends trimmed.
pub fn normalize_free_text(text: &str) -> (r: String)
    ensures
        r@ == normalize_ws(text@),
{
    let v = str_to_chars(text);
    let norm = normalize_chars(&v);
    chars_to_string(&norm)
}

/// Whether an answer counts as given: non-blank free text or a selection.
pub open spec fn spec_answer_nonempty(a: AnswerV) -> bool {
    ||| (match a.free_text {
        Some(t) => trim_ws(t).len() > 0,
        None => false,
    })
    ||| a.selected.len() > 0
}

/// Executable version of [`spec_answer_nonempty`].
pub fn answer_is_nonempty(answer: &QuestionAnswer) -> (r: bool)
    ensures
        r == spec_answer_nonempty(answer@),
{
    match &answer.free_text {
        Some(t) => {
            let tv = str_to_chars(t.as_str());
            let tc = trim_chars(&tv);
            if tc.len() > 0 {
                return true;
            }
        },
        None => {},
    }
    answer.selected_option_indices.len() > 0
}

/// The selected indices, one-based, comma-joined without spaces.
pub open spec fn spec_digit_list(sel: Seq<usize>) -> Seq<char>
    decreases sel.len(),
{
    if sel.len() == 0 {
        Seq::empty()
    } else if sel.len() == 1 {
        dec_digits(sel[0] + 1)
    } else {
        dec_digits(sel[0] + 1) + seq![','] + spec_digit_list(sel.drop_first())
    }
}

/// The reply line for one question: the trimmed free text where it is
/// non-blank, else the one-based selection for a single-select question,
/// else the comma-joined one-based selections.
pub open spec fn spec_answer_line(q: QuestionV, a: AnswerV) -> Seq<char> {
    let ft = match a.free_text {
        Some(t) => trim_ws(t),
        None => Seq::empty(),
    };
    if ft.len() > 0 {
        ft
    } else if q.kind == QuestionKind::SingleSelect {
        if a.selected.len() > 0 {
            dec_digits(a.selected[0] + 1)
        } else {
            Seq::empty()
        }
    } else {
        spec_digit_list(a.selected)
    }
}

/// The whole reply: the questions' lines, newline-joined, in order.
pub open spec fn spec_encode(qs: Seq<QuestionV>, answers: Seq<AnswerV>) -> Seq<char>
    decreases qs.len(),
{
    if qs.len() == 0 {
        Seq::empty()
    } else if qs.len() == 1 {
        spec_answer_line(qs[0], answers[0])
    } else {
        spec_answer_line(qs[0], answers[0]) + seq!['\n'] + spec_encode(
            qs.drop_first(),
            answers.drop_first(),
        )
    }
}

/// Comma-joined one-based digit lists are distinct for distinct selections
/// of single-digit indices: the list can be read back.
pub proof fn lemma_digit_list_injective(a: Seq<usize>, b: Seq<usize>)
    requires
        forall|i: int| 0 <= i < a.len() ==> (#[trigger] a[i]) < 9,
        forall|i: int| 0 <= i < b.len() ==> (#[trigger] b[i]) < 9,
        spec_digit_list(a) == spec_digit_list(b),
    ensures
        a == b,
    decreases a.len(),
{
    if a.len() == 0 {
        if b.len() > 0 {
            assert(dec_digits(b[0] + 1) == seq![crate::text::digit_char(b[0] + 1)]);
            assert(spec_digit_list(b).len() > 0);
        }
        assert(a =~= b);
    } else if b.len() == 0 {
        assert(dec_digits(a[0] + 1) == seq![crate::text::digit_char(a[0] + 1)]);
        assert(spec_digit_list(a).len() > 0);
    } else {
        let ca = crate::text::digit_char(a[0] + 1);
        let cb = crate::text::digit_char(b[0] + 1);
        assert(dec_digits(a[0] + 1) == seq![ca]);
        assert(dec_digits(b[0] + 1) == seq![cb]);
        assert(spec_digit_list(a)[0] == ca);
        assert(spec_digit_list(b)[0] == cb);
        assert(a[0] == b[0]);
        if a.len() == 1 && b.len() == 1 {
            assert(a =~= b);
        } else if a.len() == 1 {
            assert(spec_digit_list(b) == seq![cb] + seq![','] + spec_digit_list(b.drop_first()));
            assert(spec_digit_list(a).len() == 1);
            assert(spec_digit_list(b).len() >= 2);
        } else if b.len() == 1 {
            assert(spec_digit_list(a) == seq![ca] + seq![','] + spec_digit_list(a.drop_first()));
            assert(spec_digit_list(a).len() >= 2);
        } else {
            let ta = spec_digit_list(a.drop_first());
            let tb = spec_digit_list(b.drop_first());
            assert(spec_digit_list(a) == seq![ca] + seq![','] + ta);
            assert(spec_digit_list(b) == seq![cb] + seq![','] + tb);
            assert((seq![ca] + seq![',']).len() == 2);
            assert((seq![cb] + seq![',']).len() == 2);
            assert(spec_digit_list(a).len() == 2 + ta.len());
            assert(spec_digit_list(b).len() == 2 + tb.len());
            assert(ta.len() == tb.len());
            assert(ta =~= tb) by {
                assert forall|k: int| 0 <= k < ta.len() implies ta[k] == tb[k] by {
                    assert((seq![ca] + seq![','] + ta)[k + 2] == ta[k]);
                    assert((seq![cb] + seq![','] + tb)[k + 2] == tb[k]);
                }
            }
            assert forall|i: int| 0 <= i < a.drop_first().len() implies (#[trigger] a.drop_first()[i])
                < 9 by {
                assert(a[i + 1] < 9);
            }
            assert forall|i: int| 0 <= i < b.drop_first().len() implies (#[trigger] b.drop_first()[i])
                < 9 by {
                assert(b[i + 1] < 9);
            }
            lemma_digit_list_injective(a.drop_first(), b.drop_first());
            assert(a.len() == b.len());
            assert forall|i: int| 0 <= i < a.len() implies a[i] == b[i] by {
                if i > 0 {
                    assert(a.drop_first()[i - 1] == b.drop_first()[i - 1]);
                }
            }
            assert(a =~= b);
        }
    }
}

/// The encoded line determines the operator's selection: two selection
/// answers to one question that encode to the same line selected the same
/// options.  For a single-select question the selection is the one the
/// machine stores, a single index.
pub proof fn lemma_encode_left_inverse(q: QuestionV, a: AnswerV, b: AnswerV)
    requires
        crate::model::question_wf(q),
        answer_wf(a, q),
        answer_wf(b, q),
        a.free_text is None,
        b.free_text is None,
        q.kind == QuestionKind::SingleSelect ==> a.selected.len() == 1 && b.selected.len() == 1,
        spec_answer_line(q, a) == spec_answer_line(q, b),
    ensures
        a.selected == b.selected,
{
    if q.kind == QuestionKind::SingleSelect {
        assert(spec_answer_line(q, a) == dec_digits(a.selected[0] + 1));
        assert(spec_answer_line(q, b) == dec_digits(b.selected[0] + 1));
        assert(dec_digits(a.selected[0] + 1) == seq![crate::text::digit_char(a.selected[0] + 1)]);
        assert(dec_digits(b.selected[0] + 1) == seq![crate::text::digit_char(b.selected[0] + 1)]);
        assert(dec_digits(a.selected[0] + 1)[0] == dec_digits(b.selected[0] + 1)[0]);
        assert(a.selected =~= b.selected);
    } else {
        lemma_digit_list_injective(a.selected, b.selected);
    }
}

/// The reply line for one question, executably.
fn answer_line_chars(q: &crate::model::PlanQuestion, a: &QuestionAnswer) -> (r: Vec<char>)
    requires
        answer_wf(a@, q@),
    ensures
        r@ == spec_answer_line(q@, a@),
{
    match &a.free_text {
        Some(t) => {
            let tv = str_to_chars(t.as_str());
            let tc = trim_chars(&tv);
            if tc.len() > 0 {
                return tc;
            }
        },
        None => {},
    }
    let sel = &a.selected_option_indices;
    let m = sel.len();
    let opt_count = q.options.len();
    proof {
        assert(q@.options.len() == opt_count as int);
    }
    if q.kind == QuestionKind::SingleSelect {
        if m > 0 {
            proof {
                assert(a@.selected[0] < q@.options.len());
            }
            return usize_to_chars(sel[0] + 1);
        }
        let r: Vec<char> = Vec::new();
        proof {
            assert(r@ =~= Seq::<char>::empty());
        }
        return r;
    }
    let mut out: Vec<char> = Vec::new();
    let mut j: usize = 0;
    proof {
        assert(sel@.skip(0) =~= sel@);
        assert(out@ + spec_digit_list(sel@.skip(0)) =~= spec_digit_list(sel@));
    }
    while j < m
        invariant
            j <= m,
            m == sel@.len(),
            answer_wf(a@, q@),
            a@.selected == sel@,
            q@.options.len() <= usize::MAX as int,
            spec_digit_list(sel@) == out@ + (if 0 < j < m {
                seq![',']
            } else {
                Seq::<char>::empty()
            }) + spec_digit_list(sel@.skip(j as int)),
        decreases m - j,
    {
        if j > 0 {
            out.push(',');
        }
        let mut digits = usize_to_chars(sel[j] + 1);
        out.append(&mut digits);
        proof {
            assert(sel@.skip(j as int).drop_first() =~= sel@.skip(j + 1 as int));
            assert(sel@.skip(j as int)[0] == sel@[j as int]);
        }
        j += 1;
    }
    proof {
        assert(sel@.skip(m as int) =~= Seq::<usize>::empty());
        assert(out@ + spec_digit_list(sel@.skip(m as int)) =~= out@);
    }
    out
}

/// The reply string for a round and its answers.
pub fn format_answers(round: &PlanQuestionRound, answers: &Vec<QuestionAnswer>) -> (r: String)
    requires
        answers@.len() == round.questions@.len(),
        forall|i: int| 0 <= i < answers@.len() ==> answer_wf(
            #[trigger] answers@[i]@,
            round.questions@[i]@,
        ),
    ensures
        r@ == spec_encode(round@.questions, answers.deep_view()),
{
    let ghost qsv = round@.questions;
    let ghost asv = answers.deep_view();
    let n = round.questions.len();
    let mut out: Vec<char> = Vec::new();
    let mut i: usize = 0;
    proof {
        assert(qsv.skip(0) =~= qsv);
        assert(asv.skip(0) =~= asv);
        assert(out@ + spec_encode(qsv.skip(0), asv.skip(0)) =~= spec_encode(qsv, asv));
    }
    while i < n
        invariant
            i <= n,
            n == round.questions@.len(),
            answers@.len() == round.questions@.len(),
            forall|k: int| 0 <= k < answers@.len() ==> answer_wf(
                #[trigger] answers@[k]@,
                round.questions@[k]@,
            ),
            qsv == round@.questions,
            asv == answers.deep_view(),
            spec_encode(qsv, asv) == out@ + (if 0 < i < n {
                seq!['\n']
            } else {
                Seq::<char>::empty()
            }) + spec_encode(qsv.skip(i as int), asv.skip(i as int)),
        decreases n - i,
    {
        if i > 0 {
            out.push('\n');
        }
        let mut line = answer_line_chars(&round.questions[i], &answers[i]);
        out.append(&mut line);
        proof {
            assert(qsv.skip(i as int).drop_first() =~= qsv.skip(i + 1 as int));
            assert(asv.skip(i as int).drop_first() =~= asv.skip(i + 1 as int));
            assert(qsv.skip(i as int)[0] == qsv[i as int]);
            assert(asv.skip(i as int)[0] == asv[i as int]);
        }
        i += 1;
    }
    proof {
        assert(qsv.skip(n as int) =~= Seq::<QuestionV>::empty());
        assert(out@ + spec_encode(qsv.skip(n as int), asv.skip(n as int)) =~= out@);
    }
    chars_to_string(&out)
}

} // verus!
