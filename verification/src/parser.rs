//! The grammar parser: semi-structured agent text to an optional round.
//!
//! The grammar tolerates loosely formatted text: a "Decision points" header
//! opens the section, numbered lines start questions or options, bullet
//! lines start options, indented plain lines continue an option's
//! description, and a section heading such as "Checkpoints" ends the scan.
//! The collected questions are then repaired: at most five questions, at
//! most five options each, and a free-text sentinel option moved or forced
//! into the last position.

use vstd::prelude::*;

use crate::model::{OptionV, PlanQuestion, PlanQuestionRound, QuestionKind, QuestionOption, QuestionV, RoundV};
use crate::model::{question_wf, round_wf, sentinel_option};
use crate::text::{chars_to_string, contains_chars, contains_seq, dec_digits, digits_val, eq_ignore_case, find, find_sub, find_sub_from, is_digit, is_digit_char, is_ws, is_ws_char, lower_chars, lower_seq, normalize_chars, normalize_ws, opt_shift, parse_usize, split_lines, split_lines_spec, starts_with, starts_with_chars, str_to_chars, strip_hashes, strip_leading_hashes, strip_leading_punct, strip_punct, sub_chars, trim_chars, trim_start_chars, trim_start_ws, trim_ws, usize_to_chars};

verus! {

/// The header that opens a decision-points section, lowercased.
pub open spec fn header_pat() -> Seq<char> {
    "decision points"@
}

/// Whether a line is the decision-points header: optionally `#`-prefixed,
/// "decision points" case-insensitively, followed by nothing or by `:`,
/// `-`, an em dash, `<` or whitespace.
pub open spec fn spec_is_header(line: Seq<char>) -> bool {
    let r = trim_start_ws(strip_hashes(trim_ws(line)));
    &&& starts_with(lower_seq(r), header_pat())
    &&& (r.len() == header_pat().len() || {
        let c = r[header_pat().len() as int];
        c == ':' || c == '-' || c == '\u{2014}' || c == '<' || is_ws(c)
    })
}

/// Whether a line, trimmed, names a section that ends the scan.
pub open spec fn spec_is_stop(line: Seq<char>) -> bool {
    let t = trim_ws(line);
    ||| lower_seq(t) == lower_seq("checkpoints"@)
    ||| lower_seq(t) == lower_seq("rollback"@)
    ||| lower_seq(t) == lower_seq("plan"@)
    ||| lower_seq(t) == lower_seq("goal"@)
}

/// The length of the longest prefix of decimal digits.
pub open spec fn digits_prefix_len(s: Seq<char>) -> int
    decreases s.len(),
{
    if s.len() > 0 && is_digit(s[0]) {
        1 + digits_prefix_len(s.drop_first())
    } else {
        0
    }
}

/// The digit prefix is in bounds, all digits, and maximal.
pub proof fn lemma_digits_prefix(s: Seq<char>)
    ensures
        0 <= digits_prefix_len(s) <= s.len(),
        forall|i: int| 0 <= i < digits_prefix_len(s) ==> is_digit(s[i]),
        digits_prefix_len(s) < s.len() ==> !is_digit(s[digits_prefix_len(s)]),
    decreases s.len(),
{
    if s.len() > 0 && is_digit(s[0]) {
        lemma_digits_prefix(s.drop_first());
        let d = digits_prefix_len(s);
        assert forall|i: int| 0 <= i < d implies is_digit(s[i]) by {
            if i > 0 {
                assert(is_digit(s.drop_first()[i - 1]));
            }
        }
        if d < s.len() {
            assert(!is_digit(s.drop_first()[d - 1]));
        }
    }
}

/// What a numbered line yields: its leading number and the text after the
/// separator.  A line qualifies when optional leading whitespace is
/// followed by digits, one of `) . : -`, and then whitespace; a digit
/// string too large for `usize` disqualifies the line.
pub open spec fn spec_numbered(line: Seq<char>) -> Option<(int, Seq<char>)> {
    let t = trim_start_ws(line);
    let d = digits_prefix_len(t);
    if d == 0 {
        None
    } else if t.len() < d + 2 {
        None
    } else if !(t[d] == ')' || t[d] == '.' || t[d] == ':' || t[d] == '-') {
        None
    } else if !is_ws(t[d + 1]) {
        None
    } else if digits_val(t.take(d)) > usize::MAX as int {
        None
    } else {
        Some((digits_val(t.take(d)), trim_start_ws(t.skip(d + 1))))
    }
}

/// What a bullet line yields: the text after `-` or `*` and whitespace.
pub open spec fn spec_bullet(line: Seq<char>) -> Option<Seq<char>> {
    let t = trim_start_ws(line);
    if t.len() >= 2 && (t[0] == '-' || t[0] == '*') && is_ws(t[1]) {
        Some(trim_start_ws(t.skip(1)))
    } else {
        None
    }
}

/// Whether numbered-line text starts a question rather than an option: it
/// holds a bold span or names a selection mode.
pub open spec fn spec_looks_like_question(rest: Seq<char>) -> bool {
    let low = lower_seq(rest);
    ||| contains_seq(rest, "**"@)
    ||| contains_seq(low, "single-select"@)
    ||| contains_seq(low, "single select"@)
    ||| contains_seq(low, "multi-select"@)
    ||| contains_seq(low, "multi select"@)
    ||| contains_seq(low, "select all"@)
}

/// The first bold span of `s` and `s` with that span cut out.  Without a
/// complete, non-blank `**...**` span the text is returned unchanged.
pub open spec fn spec_split_bold(s: Seq<char>) -> (Option<Seq<char>>, Seq<char>) {
    match find(s, "**"@) {
        None => (None, s),
        Some(i) => match opt_shift(find(s.skip(i + 2), "**"@), i + 2) {
            None => (None, s),
            Some(j) => {
                let lab = trim_ws(s.subrange(i + 2, j));
                if lab.len() == 0 {
                    (None, s)
                } else {
                    (Some(lab), s.take(i) + s.skip(j + 2))
                }
            },
        },
    }
}

/// One replacement step is applied wherever the pattern occurs, as
/// `str::replace` does, left to right and without overlap.
pub open spec fn spec_replace(s: Seq<char>, p: Seq<char>, q: Seq<char>) -> Seq<char>
    decreases s.len() via spec_replace_decreases
{
    if p.len() == 0 {
        s
    } else {
        match find(s, p) {
            None => s,
            Some(i) => s.take(i) + q + spec_replace(s.skip(i + p.len()), p, q),
        }
    }
}

#[via_fn]
proof fn spec_replace_decreases(s: Seq<char>, p: Seq<char>, q: Seq<char>) {
    crate::text::lemma_find_props(s, p);
}

/// The question a numbered question line describes: label from the bold
/// span or synthesized from the number, kind from the named selection
/// mode, prompt from the remaining text stripped and normalized.
pub open spec fn spec_question(num: int, rest: Seq<char>) -> QuestionV {
    let original = trim_ws(rest);
    let bold = spec_split_bold(original);
    let label = match bold.0 {
        Some(l) => l,
        None => "Question "@ + dec_digits(num),
    };
    let low = lower_seq(original);
    let kind = if contains_seq(low, "multi-select"@) || contains_seq(low, "multi select"@)
        || contains_seq(low, "select all"@) {
        QuestionKind::MultiSelect
    } else {
        QuestionKind::SingleSelect
    };
    let cut = spec_replace(spec_replace(bold.1, "(single-select)"@, Seq::empty()), "(multi-select)"@, Seq::empty());
    let stripped = normalize_ws(trim_ws(strip_punct(trim_ws(cut))));
    let prompt = if stripped.len() == 0 {
        original
    } else {
        stripped
    };
    QuestionV { label, prompt, kind, options: Seq::empty() }
}

/// The option an option line describes: title and description split on the
/// first `" - "` (or, failing that, `" — "`), and the free-text flag from
/// the sentinel phrases.
pub open spec fn spec_option(rest: Seq<char>) -> OptionV {
    let r = trim_ws(rest);
    let low = lower_seq(r);
    let ft = contains_seq(low, "type your answer"@) || contains_seq(low, "type something"@)
        || contains_seq(low, "(none)"@);
    let split = match find(r, " - "@) {
        Some(i) => (trim_ws(r.take(i)), Some(trim_ws(r.skip(i + 3)))),
        None => match find(r, " \u{2014} "@) {
            Some(i) => (trim_ws(r.take(i)), Some(trim_ws(r.skip(i + 3)))),
            None => (r, None),
        },
    };
    OptionV { title: split.0, description: split.1, is_free_text: ft }
}

/// An option with a further description line joined on, space-separated.
pub open spec fn spec_append_desc(o: OptionV, line: Seq<char>) -> OptionV {
    let t = trim_ws(line);
    let d = match o.description {
        None => t,
        Some(d) => if d.len() == 0 {
            t
        } else {
            d + seq![' '] + t
        },
    };
    OptionV { description: Some(d), ..o }
}

/// The scanner's running state: finished questions, the open question, the
/// open option, and whether a stop line has ended the scan.
pub ghost struct ScanState {
    pub questions: Seq<QuestionV>,
    pub current: Option<QuestionV>,
    pub copt: Option<OptionV>,
    pub stopped: bool,
}

/// The scanner's initial state.
pub open spec fn scan_init() -> ScanState {
    ScanState { questions: Seq::empty(), current: None, copt: None, stopped: false }
}

/// A question with its open option pushed on, if one is open.
pub open spec fn flush_option(q: QuestionV, copt: Option<OptionV>) -> QuestionV {
    match copt {
        Some(o) => QuestionV { options: q.options.push(o), ..q },
        None => q,
    }
}

/// The finished questions once the open question and option are flushed.
pub open spec fn flush_questions(st: ScanState) -> Seq<QuestionV> {
    match st.current {
        Some(q) => st.questions.push(flush_option(q, st.copt)),
        None => st.questions,
    }
}

/// How one line advances the scanner.
pub open spec fn scan_step(st: ScanState, line: Seq<char>) -> ScanState {
    if st.stopped {
        st
    } else if spec_is_stop(line) {
        ScanState { stopped: true, ..st }
    } else {
        match spec_numbered(line) {
            Some((num, rest0)) => {
                let rest = trim_ws(rest0);
                if spec_looks_like_question(rest) {
                    ScanState {
                        questions: flush_questions(st),
                        current: Some(spec_question(num, rest)),
                        copt: None,
                        stopped: false,
                    }
                } else {
                    match st.current {
                        Some(q) => ScanState {
                            questions: st.questions,
                            current: Some(flush_option(q, st.copt)),
                            copt: Some(spec_option(rest)),
                            stopped: false,
                        },
                        None => st,
                    }
                }
            },
            None => match spec_bullet(line) {
                Some(rest0) => {
                    let rest = trim_ws(rest0);
                    match st.current {
                        Some(q) => ScanState {
                            current: Some(flush_option(q, st.copt)),
                            copt: Some(spec_option(rest)),
                            ..st
                        },
                        None => st,
                    }
                },
                None => {
                    let t = trim_ws(line);
                    match st.copt {
                        Some(o) => if t.len() == 0 {
                            st
                        } else {
                            ScanState { copt: Some(spec_append_desc(o, t)), ..st }
                        },
                        None => st,
                    }
                },
            },
        }
    }
}

/// The scanner run over a sequence of lines.
pub open spec fn spec_scan(st: ScanState, lines: Seq<Seq<char>>) -> ScanState
    decreases lines.len(),
{
    if lines.len() == 0 {
        st
    } else {
        spec_scan(scan_step(st, lines[0]), lines.drop_first())
    }
}

/// A stopped scanner ignores every further line.
pub proof fn lemma_scan_stopped(st: ScanState, lines: Seq<Seq<char>>)
    requires
        st.stopped,
    ensures
        spec_scan(st, lines) == st,
    decreases lines.len(),
{
    if lines.len() > 0 {
        lemma_scan_stopped(st, lines.drop_first());
    }
}

/// The position of the first free-text option, if any.
pub open spec fn first_free_text(opts: Seq<OptionV>) -> Option<int>
    decreases opts.len(),
{
    if opts.len() == 0 {
        None
    } else if opts[0].is_free_text {
        Some(0)
    } else {
        opt_shift(first_free_text(opts.drop_first()), 1)
    }
}

/// Where `first_free_text` answers, it answers with the first free-text
/// position; where it does not, no option is free-text.
pub proof fn lemma_first_free_text(opts: Seq<OptionV>)
    ensures
        match first_free_text(opts) {
            Some(i) => 0 <= i < opts.len() && opts[i].is_free_text && forall|j: int|
                0 <= j < i ==> !opts[j].is_free_text,
            None => forall|j: int| 0 <= j < opts.len() ==> !(#[trigger] opts[j]).is_free_text,
        },
    decreases opts.len(),
{
    if opts.len() > 0 && !opts[0].is_free_text {
        lemma_first_free_text(opts.drop_first());
        match first_free_text(opts) {
            Some(i) => {
                assert(opts[i] == opts.drop_first()[i - 1]);
                assert forall|j: int| 0 <= j < i implies !opts[j].is_free_text by {
                    if j > 0 {
                        assert(!opts.drop_first()[j - 1].is_free_text);
                    }
                }
            },
            None => {
                assert forall|j: int| 0 <= j < opts.len() implies !(#[trigger] opts[j]).is_free_text by {
                    if j > 0 {
                        assert(!opts.drop_first()[j - 1].is_free_text);
                    }
                }
            },
        }
    }
}

/// A question's options repaired: truncated to five, and the free-text
/// sentinel moved to the end, appended, or forced onto the last option.
pub open spec fn fix_options(opts0: Seq<OptionV>) -> Seq<OptionV> {
    let opts = if opts0.len() > 5 {
        opts0.take(5)
    } else {
        opts0
    };
    match first_free_text(opts) {
        Some(p) => opts.remove(p).push(opts[p]),
        None => if opts.len() < 5 {
            opts.push(sentinel_option())
        } else {
            opts.update(4, sentinel_option())
        },
    }
}

/// A question with its options repaired.
pub open spec fn fix_question(q: QuestionV) -> QuestionV {
    QuestionV { options: fix_options(q.options), ..q }
}

/// The scanned questions repaired: truncated to five, each question fixed.
pub open spec fn spec_post(qs: Seq<QuestionV>) -> Seq<QuestionV> {
    let tq = if qs.len() > 5 {
        qs.take(5)
    } else {
        qs
    };
    tq.map(|i: int, q: QuestionV| fix_question(q))
}

/// Repaired options hold one to five entries and end with a free-text one.
pub proof fn lemma_fix_options_wf(opts0: Seq<OptionV>)
    ensures
        1 <= fix_options(opts0).len() <= 5,
        fix_options(opts0).last().is_free_text,
{
    let opts = if opts0.len() > 5 {
        opts0.take(5)
    } else {
        opts0
    };
    lemma_first_free_text(opts);
    match first_free_text(opts) {
        Some(p) => {
            assert(fix_options(opts0) == opts.remove(p).push(opts[p]));
        },
        None => {},
    }
}

/// Where the scanned options flagged at most one of themselves free-text,
/// the repaired options hold exactly one free-text option, in last
/// position.  (A question whose text flags several options free-text keeps
/// the extra flags; only the first flagged option moves to the end.)
pub proof fn lemma_fix_options_single_sentinel(opts0: Seq<OptionV>)
    requires
        forall|i: int, j: int|
            0 <= i < opts0.len() && 0 <= j < opts0.len() && opts0[i].is_free_text
                && opts0[j].is_free_text ==> i == j,
    ensures
        fix_options(opts0).last().is_free_text,
        forall|i: int| 0 <= i < fix_options(opts0).len() - 1 ==> !(#[trigger] fix_options(
            opts0,
        )[i]).is_free_text,
{
    let opts = if opts0.len() > 5 {
        opts0.take(5)
    } else {
        opts0
    };
    lemma_first_free_text(opts);
    lemma_fix_options_wf(opts0);
    let r = fix_options(opts0);
    match first_free_text(opts) {
        Some(p) => {
            assert(r == opts.remove(p).push(opts[p]));
            assert forall|i: int| 0 <= i < r.len() - 1 implies !(#[trigger] r[i]).is_free_text by {
                if i < p {
                    assert(r[i] == opts[i]);
                } else {
                    assert(r[i] == opts[i + 1]);
                }
            }
        },
        None => {
            assert forall|i: int| 0 <= i < r.len() - 1 implies !(#[trigger] r[i]).is_free_text by {
                assert(r[i] == opts[i]);
            }
        },
    }
}

/// A question that offered at least one real option ends the repair with
/// at least two options: the real one and a free-text one.  (A question
/// whose only scanned options were free-text can end with a single
/// option.)
pub proof fn lemma_fix_options_at_least_two(opts0: Seq<OptionV>)
    requires
        exists|i: int| 0 <= i < opts0.len() && !(#[trigger] opts0[i]).is_free_text,
    ensures
        fix_options(opts0).len() >= 2,
{
    let opts = if opts0.len() > 5 {
        opts0.take(5)
    } else {
        opts0
    };
    lemma_first_free_text(opts);
    let w = choose|i: int| 0 <= i < opts0.len() && !(#[trigger] opts0[i]).is_free_text;
    match first_free_text(opts) {
        Some(p) => {
            if opts.len() < 2 {
                assert(opts[w] == opts0[w]);
            }
            assert(fix_options(opts0) == opts.remove(p).push(opts[p]));
        },
        None => {},
    }
}

/// A question with its options repaired, executably.
pub fn fix_question_exec(q0: PlanQuestion) -> (r: PlanQuestion)
    ensures
        r@ == fix_question(q0@),
{
    let mut q = q0;
    let ghost opts0 = q.options.deep_view();
    if q.options.len() > 5 {
        q.options.truncate(5);
        proof {
            assert(q.options.deep_view() =~= opts0.take(5));
        }
    }
    let ghost opts = if opts0.len() > 5 {
        opts0.take(5)
    } else {
        opts0
    };
    let m = q.options.len();
    let mut p: usize = 0;
    let mut found = false;
    proof {
        assert(opts.skip(0) =~= opts);
    }
    while !found && p < m
        invariant
            p <= m,
            m == q.options.len(),
            q.options.deep_view() == opts,
            !found ==> first_free_text(opts) == opt_shift(
                first_free_text(opts.skip(p as int)),
                p as int,
            ),
            found ==> p < m && first_free_text(opts) == Some(p as int),
        decreases m - p + (if found { 0int } else { 1int }),
    {
        if q.options[p].is_free_text {
            found = true;
        } else {
            proof {
                assert(opts.skip(p as int).drop_first() =~= opts.skip(p + 1 as int));
            }
            p += 1;
        }
    }
    if found {
        let o = q.options.remove(p);
        q.options.push(o);
        proof {
            assert(q.options.deep_view() =~= opts.remove(p as int).push(opts[p as int]));
        }
    } else {
        proof {
            assert(opts.skip(m as int) =~= Seq::<OptionV>::empty());
            assert(first_free_text(opts) is None);
        }
        let sentinel = QuestionOption {
            title: chars_to_string(&str_to_chars("(None) Type your answer")),
            description: None,
            is_free_text: true,
        };
        proof {
            assert(sentinel@ == sentinel_option());
        }
        if q.options.len() < 5 {
            q.options.push(sentinel);
            proof {
                assert(q.options.deep_view() =~= opts.push(sentinel_option()));
            }
        } else {
            let _ = q.options.remove(4);
            q.options.push(sentinel);
            proof {
                assert(q.options.deep_view() =~= opts.update(4, sentinel_option()));
            }
        }
    }
    q
}

/// The index of the first header line, if any.
pub open spec fn spec_first_header(lines: Seq<Seq<char>>) -> Option<int>
    decreases lines.len(),
{
    if lines.len() == 0 {
        None
    } else if spec_is_header(lines[0]) {
        Some(0)
    } else {
        opt_shift(spec_first_header(lines.drop_first()), 1)
    }
}

/// Whether a line is the decision-points header.
pub fn is_decision_points_header(line: &Vec<char>) -> (r: bool)
    ensures
        r == spec_is_header(line@),
{
    let t = trim_chars(line);
    let stripped = strip_leading_hashes(&t);
    let rest = trim_start_chars(&stripped);
    let low = lower_chars(&rest);
    let pat = str_to_chars("decision points");
    if !starts_with_chars(&low, &pat) {
        return false;
    }
    if rest.len() == pat.len() {
        return true;
    }
    let c = rest[pat.len()];
    c == ':' || c == '-' || c == '\u{2014}' || c == '<' || is_ws_char(c)
}

/// Whether a line, trimmed, names a section that ends the scan.
pub fn is_stop_line(line: &Vec<char>) -> (r: bool)
    ensures
        r == spec_is_stop(line@),
{
    let t = trim_chars(line);
    eq_ignore_case(&t, &str_to_chars("checkpoints")) || eq_ignore_case(&t, &str_to_chars("rollback"))
        || eq_ignore_case(&t, &str_to_chars("plan")) || eq_ignore_case(&t, &str_to_chars("goal"))
}

/// The leading decimal digits of `v` and what follows them.
pub fn split_digits_prefix(v: &Vec<char>) -> (r: Option<(Vec<char>, Vec<char>)>)
    ensures
        ({
            let d = digits_prefix_len(v@);
            match r {
                Some(pair) => d > 0 && pair.0@ == v@.take(d) && pair.1@ == v@.skip(d),
                None => d == 0,
            }
        }),
{
    let n = v.len();
    let mut i: usize = 0;
    proof {
        assert(v@.skip(0) =~= v@);
    }
    while i < n && is_digit_char(v[i])
        invariant
            i <= n,
            n == v.len(),
            digits_prefix_len(v@) == i + digits_prefix_len(v@.skip(i as int)),
        decreases n - i,
    {
        proof {
            assert(v@.skip(i as int).drop_first() =~= v@.skip(i + 1 as int));
        }
        i += 1;
    }
    if i == 0 {
        return None;
    }
    proof {
        assert(v@.take(i as int) =~= v@.subrange(0, i as int));
        assert(v@.skip(i as int) =~= v@.subrange(i as int, n as int));
    }
    Some((sub_chars(v, 0, i), sub_chars(v, i, n)))
}

/// A numbered line's number and remaining text, where the line qualifies.
pub fn parse_numbered_line(line: &Vec<char>) -> (r: Option<(usize, Vec<char>)>)
    ensures
        match r {
            Some(pair) => spec_numbered(line@) == Some((pair.0 as int, pair.1@)),
            None => spec_numbered(line@) is None,
        },
{
    let t = trim_start_chars(line);
    let ghost d = digits_prefix_len(t@);
    proof {
        lemma_digits_prefix(t@);
    }
    let pair = match split_digits_prefix(&t) {
        Some(p) => p,
        None => {
            return None;
        },
    };
    let digits = pair.0;
    let after = pair.1;
    if after.len() < 2 {
        return None;
    }
    proof {
        assert(t@[d] == after@[0]);
        assert(t@[d + 1] == after@[1]);
    }
    let sep = after[0];
    if !(sep == ')' || sep == '.' || sep == ':' || sep == '-') {
        return None;
    }
    if !is_ws_char(after[1]) {
        return None;
    }
    proof {
        assert(forall|k: int| 0 <= k < digits@.len() ==> is_digit(digits@[k]));
    }
    let num = match parse_usize(&digits) {
        Some(n) => n,
        None => {
            return None;
        },
    };
    let tail = sub_chars(&after, 1, after.len());
    proof {
        assert(tail@ =~= t@.skip(d + 1));
    }
    let rest = trim_start_chars(&tail);
    Some((num, rest))
}

/// A bullet line's remaining text, where the line qualifies.
pub fn parse_bullet_line(line: &Vec<char>) -> (r: Option<Vec<char>>)
    ensures
        match r {
            Some(rest) => spec_bullet(line@) == Some(rest@),
            None => spec_bullet(line@) is None,
        },
{
    let t = trim_start_chars(line);
    if t.len() < 2 {
        return None;
    }
    let c = t[0];
    if !(c == '-' || c == '*') {
        return None;
    }
    if !is_ws_char(t[1]) {
        return None;
    }
    let tail = sub_chars(&t, 1, t.len());
    proof {
        assert(tail@ =~= t@.skip(1));
    }
    Some(trim_start_chars(&tail))
}

/// Whether numbered-line text starts a question rather than an option.
pub fn looks_like_question(rest: &Vec<char>) -> (r: bool)
    ensures
        r == spec_looks_like_question(rest@),
{
    if contains_chars(rest, &str_to_chars("**")) {
        return true;
    }
    let low = lower_chars(rest);
    contains_chars(&low, &str_to_chars("single-select")) || contains_chars(
        &low,
        &str_to_chars("single select"),
    ) || contains_chars(&low, &str_to_chars("multi-select")) || contains_chars(
        &low,
        &str_to_chars("multi select"),
    ) || contains_chars(&low, &str_to_chars("select all"))
}

/// The first bold span of `s` and `s` with that span cut out.
pub fn split_first_bold_block(s: &Vec<char>) -> (r: (Option<Vec<char>>, Vec<char>))
    ensures
        ({
            let b = spec_split_bold(s@);
            &&& match (r.0, b.0) {
                (Some(l), Some(bl)) => l@ == bl,
                (None, None) => true,
                _ => false,
            }
            &&& r.1@ == b.1
        }),
{
    proof {
        reveal_strlit("**");
    }
    let pat = str_to_chars("**");
    let n = s.len();
    let i = match find_sub(s, &pat) {
        Some(i) => i,
        None => {
            return (None, sub_chars(s, 0, n));
        },
    };
    proof {
        crate::text::lemma_find_props(s@, pat@);
        assert(s@.subrange(0, n as int) =~= s@);
    }
    let j = match find_sub_from(s, &pat, i + 2) {
        Some(j) => j,
        None => {
            return (None, sub_chars(s, 0, n));
        },
    };
    proof {
        crate::text::lemma_find_props(s@.skip(i + 2), pat@);
        assert(s@.skip(i + 2).subrange(j - i - 2, j - i) =~= s@.subrange(j as int, j + 2));
    }
    let inner = sub_chars(s, i + 2, j);
    proof {
        assert(inner@ =~= s@.subrange(i + 2, j as int));
    }
    let lab = trim_chars(&inner);
    if lab.len() == 0 {
        return (None, sub_chars(s, 0, n));
    }
    let mut rest = sub_chars(s, 0, i);
    let mut tail = sub_chars(s, j + 2, n);
    rest.append(&mut tail);
    proof {
        assert(rest@ =~= s@.take(i as int) + s@.skip(j + 2));
    }
    (Some(lab), rest)
}

/// Every occurrence of `p` in `v` replaced by `q`.
pub fn replace_all(v: &Vec<char>, p: &Vec<char>, q: &Vec<char>) -> (r: Vec<char>)
    requires
        p.len() > 0,
    ensures
        r@ == spec_replace(v@, p@, q@),
{
    let n = v.len();
    let mut out: Vec<char> = Vec::new();
    let mut pos: usize = 0;
    proof {
        assert(v@.skip(0) =~= v@);
        assert(out@ + spec_replace(v@.skip(0), p@, q@) =~= spec_replace(v@, p@, q@));
    }
    while pos < n
        invariant
            pos <= n,
            n == v.len(),
            p@.len() > 0,
            spec_replace(v@, p@, q@) == out@ + spec_replace(v@.skip(pos as int), p@, q@),
        decreases n - pos,
    {
        let ghost su = v@.skip(pos as int);
        proof {
            crate::text::lemma_find_props(su, p@);
        }
        match find_sub_from(v, p, pos) {
            Some(i) => {
                proof {
                    assert(su.take(i - pos) =~= v@.subrange(pos as int, i as int));
                    assert(su.skip(i - pos + p@.len()) =~= v@.skip(i + p@.len()));
                }
                let mut piece = sub_chars(v, pos, i);
                out.append(&mut piece);
                let mut rep = sub_chars(q, 0, q.len());
                proof {
                    assert(rep@ =~= q@);
                }
                out.append(&mut rep);
                proof {
                    assert(out@ + spec_replace(v@.skip(i + p@.len() as int), p@, q@) =~= spec_replace(
                        v@,
                        p@,
                        q@,
                    ));
                }
                pos = i + p.len();
            },
            None => {
                let mut piece = sub_chars(v, pos, n);
                proof {
                    assert(piece@ =~= su);
                    assert(spec_replace(su, p@, q@) == su);
                }
                out.append(&mut piece);
                pos = n;
            },
        }
    }
    proof {
        assert(v@.skip(n as int) =~= Seq::<char>::empty());
        assert(spec_replace(Seq::<char>::empty(), p@, q@) =~= Seq::<char>::empty());
        assert(out@ + Seq::<char>::empty() =~= out@);
    }
    out
}

/// The question a numbered question line describes.
pub fn parse_question(num: usize, rest: &Vec<char>) -> (q: PlanQuestion)
    ensures
        q@ == spec_question(num as int, rest@),
{
    let original = trim_chars(rest);
    let bold = split_first_bold_block(&original);
    let label_chars = match bold.0 {
        Some(l) => l,
        None => {
            let mut lc = str_to_chars("Question ");
            let mut digits = usize_to_chars(num);
            lc.append(&mut digits);
            proof {
                assert(lc@ =~= "Question "@ + dec_digits(num as int));
            }
            lc
        },
    };
    let label = chars_to_string(&label_chars);
    let low = lower_chars(&original);
    let kind = if contains_chars(&low, &str_to_chars("multi-select")) || contains_chars(
        &low,
        &str_to_chars("multi select"),
    ) || contains_chars(&low, &str_to_chars("select all")) {
        QuestionKind::MultiSelect
    } else {
        QuestionKind::SingleSelect
    };
    let empty: Vec<char> = Vec::new();
    proof {
        assert(empty@ =~= Seq::<char>::empty());
        reveal_strlit("(single-select)");
        reveal_strlit("(multi-select)");
    }
    let p1 = replace_all(&bold.1, &str_to_chars("(single-select)"), &empty);
    let p2 = replace_all(&p1, &str_to_chars("(multi-select)"), &empty);
    let p3 = normalize_chars(&trim_chars(&strip_leading_punct(&trim_chars(&p2))));
    let prompt_chars = if p3.len() == 0 {
        original
    } else {
        p3
    };
    let prompt = chars_to_string(&prompt_chars);
    let q = PlanQuestion { label, prompt, kind, options: Vec::new() };
    proof {
        assert(q.options.deep_view() =~= Seq::<OptionV>::empty());
    }
    q
}

/// The option an option line describes.
pub fn parse_option(rest: &Vec<char>) -> (o: QuestionOption)
    ensures
        o@ == spec_option(rest@),
{
    proof {
        reveal_strlit(" - ");
        reveal_strlit(" \u{2014} ");
    }
    let r = trim_chars(rest);
    let low = lower_chars(&r);
    let is_free_text = contains_chars(&low, &str_to_chars("type your answer")) || contains_chars(
        &low,
        &str_to_chars("type something"),
    ) || contains_chars(&low, &str_to_chars("(none)"));
    let dash = str_to_chars(" - ");
    let emdash = str_to_chars(" \u{2014} ");
    let split_at: Option<usize> = match find_sub(&r, &dash) {
        Some(i) => Some(i),
        None => find_sub(&r, &emdash),
    };
    let (title_chars, desc) = match split_at {
        Some(i) => {
            proof {
                if find(r@, dash@) is Some {
                    crate::text::lemma_find_props(r@, dash@);
                } else {
                    crate::text::lemma_find_props(r@, emdash@);
                }
            }
            let lhs = sub_chars(&r, 0, i);
            let rhs = sub_chars(&r, i + 3, r.len());
            proof {
                assert(lhs@ =~= r@.take(i as int));
                assert(rhs@ =~= r@.skip(i + 3));
            }
            (trim_chars(&lhs), Some(chars_to_string(&trim_chars(&rhs))))
        },
        None => (sub_chars(&r, 0, r.len()), None),
    };
    proof {
        assert(r@.subrange(0, r@.len() as int) =~= r@);
    }
    let o = QuestionOption { title: chars_to_string(&title_chars), description: desc, is_free_text };
    o
}

/// A further description line joined onto an option, space-separated.
pub fn append_option_description(option: &mut QuestionOption, line: &Vec<char>)
    ensures
        final(option)@ == spec_append_desc(old(option)@, line@),
{
    let t = trim_chars(line);
    let new_desc = match &option.description {
        None => chars_to_string(&t),
        Some(d) => {
            let mut dc = str_to_chars(d.as_str());
            if dc.len() > 0 {
                dc.push(' ');
            }
            let mut tv = sub_chars(&t, 0, t.len());
            proof {
                assert(tv@ =~= t@);
            }
            dc.append(&mut tv);
            proof {
                if d@.len() > 0 {
                    assert(dc@ =~= d@ + seq![' '] + trim_ws(line@));
                }
            }
            chars_to_string(&dc)
        },
    };
    option.description = Some(new_desc);
}

/// What parsing yields: no round without a header line or without at least
/// one recognized question; otherwise the scanned questions, repaired.
pub open spec fn spec_parse(text: Seq<char>) -> Option<RoundV> {
    let lines = split_lines_spec(text);
    match spec_first_header(lines) {
        None => None,
        Some(h) => {
            let st = spec_scan(scan_init(), lines.skip(h + 1));
            let qs = flush_questions(st);
            if qs.len() == 0 {
                None
            } else {
                Some(RoundV { questions: spec_post(qs) })
            }
        },
    }
}

/// A round parsed from agent text: none without a decision-points header
/// or without at least one recognized question; otherwise the scanned
/// questions, silently repaired to the round invariants.
pub fn parse_plan_question_round(text: &str) -> (r: Option<PlanQuestionRound>)
    ensures
        r.deep_view() == spec_parse(text@),
        r matches Some(round) ==> round_wf(round@),
{
    let chars = str_to_chars(text);
    let lines = split_lines(&chars);
    let ghost lseq = split_lines_spec(text@);
    let n = lines.len();

    let mut h: usize = 0;
    let mut found = false;
    proof {
        assert(lseq.skip(0) =~= lseq);
    }
    while !found && h < n
        invariant
            h <= n,
            n == lines@.len(),
            lines@.len() == lseq.len(),
            forall|k: int| 0 <= k < n ==> lines@[k]@ == lseq[k],
            !found ==> spec_first_header(lseq) == opt_shift(
                spec_first_header(lseq.skip(h as int)),
                h as int,
            ),
            found ==> h < n && spec_first_header(lseq) == Some(h as int),
        decreases n - h + (if found { 0int } else { 1int }),
    {
        if is_decision_points_header(&lines[h]) {
            found = true;
        } else {
            proof {
                assert(lseq.skip(h as int).drop_first() =~= lseq.skip(h + 1 as int));
            }
            h += 1;
        }
    }
    if !found {
        proof {
            assert(lseq.skip(n as int) =~= Seq::<Seq<char>>::empty());
        }
        return None;
    }

    let mut questions: Vec<PlanQuestion> = Vec::new();
    let mut current: Option<PlanQuestion> = None;
    let mut copt: Option<QuestionOption> = None;
    let mut stopped = false;
    let mut i: usize = h + 1;
    proof {
        assert(questions.deep_view() =~= Seq::<QuestionV>::empty());
        assert(ScanState {
            questions: questions.deep_view(),
            current: current.deep_view(),
            copt: copt.deep_view(),
            stopped,
        } == scan_init());
    }
    while i < n
        invariant
            h + 1 <= i <= n,
            n == lines@.len(),
            lines@.len() == lseq.len(),
            forall|k: int| 0 <= k < n ==> lines@[k]@ == lseq[k],
            spec_scan(scan_init(), lseq.skip(h + 1)) == spec_scan(
                ScanState {
                    questions: questions.deep_view(),
                    current: current.deep_view(),
                    copt: copt.deep_view(),
                    stopped,
                },
                lseq.skip(i as int),
            ),
        decreases n - i,
    {
        let ghost st0 = ScanState {
            questions: questions.deep_view(),
            current: current.deep_view(),
            copt: copt.deep_view(),
            stopped,
        };
        let ghost line_s = lseq[i as int];
        proof {
            assert(lseq.skip(i as int)[0] == line_s);
            assert(lseq.skip(i as int).drop_first() =~= lseq.skip(i + 1 as int));
        }
        let line = &lines[i];
        if stopped {
        } else if is_stop_line(line) {
            stopped = true;
        } else {
            match parse_numbered_line(line) {
                Some(pair) => {
                    let num = pair.0;
                    let rest = trim_chars(&pair.1);
                    if looks_like_question(&rest) {
                        let prev_o = copt.take();
                        let prev_q = current.take();
                        match prev_q {
                            Some(mut q) => {
                                let ghost qv = q@;
                                let ghost qs0 = questions.deep_view();
                                match prev_o {
                                    Some(o) => {
                                        let ghost ov = o@;
                                        q.options.push(o);
                                        proof {
                                            assert(q.options.deep_view() =~= qv.options.push(ov));
                                            assert(q@ == flush_option(qv, Some(ov)));
                                        }
                                    },
                                    None => {},
                                }
                                let ghost qv1 = q@;
                                questions.push(q);
                                proof {
                                    assert(questions.deep_view() =~= qs0.push(qv1));
                                    assert(questions.deep_view() == flush_questions(st0));
                                }
                            },
                            None => {
                                proof {
                                    assert(questions.deep_view() == flush_questions(st0));
                                }
                            },
                        }
                        current = Some(parse_question(num, &rest));
                    } else {
                        match current.take() {
                            Some(mut q) => {
                                let ghost qv = q@;
                                match copt.take() {
                                    Some(o) => {
                                        let ghost ov = o@;
                                        q.options.push(o);
                                        proof {
                                            assert(q.options.deep_view() =~= qv.options.push(ov));
                                            assert(q@ == flush_option(qv, st0.copt));
                                        }
                                    },
                                    None => {},
                                }
                                copt = Some(parse_option(&rest));
                                current = Some(q);
                            },
                            None => {},
                        }
                    }
                },
                None => {
                    match parse_bullet_line(line) {
                        Some(rest0) => {
                            let rest = trim_chars(&rest0);
                            match current.take() {
                                Some(mut q) => {
                                    let ghost qv = q@;
                                    match copt.take() {
                                        Some(o) => {
                                            let ghost ov = o@;
                                            q.options.push(o);
                                            proof {
                                                assert(q.options.deep_view() =~= qv.options.push(
                                                    ov,
                                                ));
                                                assert(q@ == flush_option(qv, st0.copt));
                                            }
                                        },
                                        None => {},
                                    }
                                    copt = Some(parse_option(&rest));
                                    current = Some(q);
                                },
                                None => {},
                            }
                        },
                        None => {
                            let t = trim_chars(line);
                            if t.len() > 0 {
                                match copt.take() {
                                    Some(mut o) => {
                                        append_option_description(&mut o, &t);
                                        copt = Some(o);
                                    },
                                    None => {},
                                }
                            }
                        },
                    }
                },
            }
        }
        proof {
            let st1 = ScanState {
                questions: questions.deep_view(),
                current: current.deep_view(),
                copt: copt.deep_view(),
                stopped,
            };
            assert(st1 == scan_step(st0, line_s));
        }
        i += 1;
    }
    proof {
        assert(lseq.skip(n as int) =~= Seq::<Seq<char>>::empty());
    }
    let ghost st_done = spec_scan(scan_init(), lseq.skip(h + 1));

    match current.take() {
        Some(mut q) => {
            let ghost qv = q@;
            let ghost qs0 = questions.deep_view();
            match copt.take() {
                Some(o) => {
                    let ghost ov = o@;
                    q.options.push(o);
                    proof {
                        assert(q.options.deep_view() =~= qv.options.push(ov));
                        assert(q@ == flush_option(qv, st_done.copt));
                    }
                },
                None => {},
            }
            let ghost qv1 = q@;
            questions.push(q);
            proof {
                assert(questions.deep_view() =~= qs0.push(qv1));
            }
        },
        None => {},
    }
    proof {
        assert(questions.deep_view() == flush_questions(st_done));
    }

    if questions.len() == 0 {
        return None;
    }

    let ghost qs = questions.deep_view();
    if questions.len() > 5 {
        questions.truncate(5);
    }
    let ghost tq = if qs.len() > 5 {
        qs.take(5)
    } else {
        qs
    };
    proof {
        assert(questions.deep_view() =~= tq);
    }
    let mut fixed: Vec<PlanQuestion> = Vec::new();
    proof {
        assert(forall|j: int| 0 <= j < questions@.len() ==> #[trigger] questions@[j].deep_view()
            == questions.deep_view()[j]);
    }
    while questions.len() > 0
        invariant
            fixed@.len() + questions@.len() == tq.len(),
            forall|j: int| 0 <= j < fixed@.len() ==> (#[trigger] fixed@[j].deep_view())
                == fix_question(tq[j]),
            forall|j: int| 0 <= j < questions@.len() ==> (#[trigger] questions@[j].deep_view())
                == tq[fixed@.len() + j],
        decreases questions.len(),
    {
        let ghost done = fixed@.len() as int;
        let ghost qs_pre = questions@;
        let q = questions.remove(0);
        proof {
            assert(q.deep_view() == tq[done]);
            assert(forall|j: int| 0 <= j < questions@.len() ==> questions@[j] == qs_pre[j + 1]);
        }
        let fq = fix_question_exec(q);
        fixed.push(fq);
    }
    let round = PlanQuestionRound { questions: fixed };
    proof {
        assert(round@.questions =~= spec_post(qs));
        assert forall|j: int| 0 <= j < round@.questions.len() implies question_wf(
            #[trigger] round@.questions[j],
        ) by {
            lemma_fix_options_wf(tq[j].options);
        }
    }
    Some(round)
}

} // verus!
