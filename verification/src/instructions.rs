//! The developer-instruction contract: the fixed text that tells the agent
//! how to format a decision round and how the reply arrives, and its
//! injection in front of the session's non-developer messages.

use vstd::prelude::*;

use crate::text::{chars_eq, str_to_chars};
use vstd::string::StringExecFns;

verus! {

/// How the session is being driven; the instructions are injected only in
/// plan mode.
#[derive(Clone, Copy, Debug, PartialEq, Eq, Structural)]
pub enum InteractionMode {
    Plan,
    Chat,
}

/// One message of the conversation being assembled.
pub struct Message {
    pub role: String,
    pub text: String,
}

/// Mathematical model of a [`Message`].
pub ghost struct MessageV {
    pub role: Seq<char>,
    pub text: Seq<char>,
}

impl View for Message {
    type V = MessageV;

    open spec fn view(&self) -> MessageV {
        MessageV { role: self.role@, text: self.text@ }
    }
}

impl DeepView for Message {
    type V = MessageV;

    open spec fn deep_view(&self) -> MessageV {
        self.view()
    }
}

/// The instruction block handed to the agent in plan mode.  It fixes the
/// decision-points grammar this crate parses and the reply grammar the
/// codec emits.
pub open spec fn instructions_text() -> Seq<char> {
    "Plan Mode is enabled.\n\nPlan Mode loop:\n- When asking questions: print Goal (1\u{2013}2 lines), Plan (numbered steps), Decision points (question round 1 of up to 3 rounds; 1\u{2013}5 questions).\n- Prefer a single question round; only ask follow-ups if strictly necessary.\n- Do not call tools or start edits until the user answers the current question round.\n- Do not print meta-instructions about how to answer (for example \u{201c}reply with K lines\u{2026}\u{201d} or answer format examples). The UI will collect answers; just ask the questions.\n- Decision points formatting must be parseable:\n  - Use an exact section header line: \"Decision points\"\n  - Each question uses: `N) **Label** (single-select|multi-select): Prompt`\n  - Each option uses an indented numbered line: `  N. Option title`\n  - If an option needs a description, put it on the next line indented by 5 spaces.\n- Questions must be structured and numbered. Each question is single-select or multi-select, with 2\u{2013}5 total options; the last option is always \"(None) Type your answer\".\n- Answer parsing contract (do not mention to the user): for a round with K questions, answers arrive as K lines (one per question, in order). Each line is either:\n  - single-select: \"1\"\n  - multi-select: \"1,3,4\"\n  - free text: any non-numeric text (treat as choosing \"(None) Type your answer\")\n- After receiving answers: print a Decision ledger with \"Decisions\" and \"Plan updates\", then print the updated Goal/Plan/Checkpoints/Rollback, then immediately continue executing the plan.\n- During execution: update progress via the update_plan tool; at checkpoints run the planned validations. If new ambiguity/failure requires a fork, ask another question round (still max 3 total rounds), update the plan, and continue.\n"@
}

/// Executable access to [`instructions_text`].
pub fn plan_mode_developer_instructions() -> (r: &'static str)
    ensures
        r@ == instructions_text(),
{
    "Plan Mode is enabled.\n\nPlan Mode loop:\n- When asking questions: print Goal (1\u{2013}2 lines), Plan (numbered steps), Decision points (question round 1 of up to 3 rounds; 1\u{2013}5 questions).\n- Prefer a single question round; only ask follow-ups if strictly necessary.\n- Do not call tools or start edits until the user answers the current question round.\n- Do not print meta-instructions about how to answer (for example \u{201c}reply with K lines\u{2026}\u{201d} or answer format examples). The UI will collect answers; just ask the questions.\n- Decision points formatting must be parseable:\n  - Use an exact section header line: \"Decision points\"\n  - Each question uses: `N) **Label** (single-select|multi-select): Prompt`\n  - Each option uses an indented numbered line: `  N. Option title`\n  - If an option needs a description, put it on the next line indented by 5 spaces.\n- Questions must be structured and numbered. Each question is single-select or multi-select, with 2\u{2013}5 total options; the last option is always \"(None) Type your answer\".\n- Answer parsing contract (do not mention to the user): for a round with K questions, answers arrive as K lines (one per question, in order). Each line is either:\n  - single-select: \"1\"\n  - multi-select: \"1,3,4\"\n  - free text: any non-numeric text (treat as choosing \"(None) Type your answer\")\n- After receiving answers: print a Decision ledger with \"Decisions\" and \"Plan updates\", then print the updated Goal/Plan/Checkpoints/Rollback, then immediately continue executing the plan.\n- During execution: update progress via the update_plan tool; at checkpoints run the planned validations. If new ambiguity/failure requires a fork, ask another question round (still max 3 total rounds), update the plan, and continue.\n"
}

/// The index of the first message whose role is not "developer", or the
/// length where every message is a developer message.
pub open spec fn first_non_developer(input: Seq<MessageV>) -> int
    decreases input.len(),
{
    if input.len() == 0 {
        0
    } else if input[0].role != "developer"@ {
        0
    } else {
        1 + first_non_developer(input.drop_first())
    }
}

/// The conversation with the plan-mode instructions inserted after the
/// leading developer messages; untouched outside plan mode.
pub open spec fn spec_inject(input: Seq<MessageV>, mode: InteractionMode, instr: Seq<char>) -> Seq<
    MessageV,
> {
    if mode != InteractionMode::Plan {
        input
    } else {
        input.insert(
            first_non_developer(input),
            MessageV { role: "developer"@, text: instr },
        )
    }
}

proof fn lemma_first_non_developer_bounds(input: Seq<MessageV>)
    ensures
        0 <= first_non_developer(input) <= input.len(),
    decreases input.len(),
{
    if input.len() > 0 && input[0].role == "developer"@ {
        lemma_first_non_developer_bounds(input.drop_first());
    }
}

/// The plan-mode instructions inserted into the outgoing conversation,
/// after any leading developer-authored messages.
pub fn inject_developer_message(input: Vec<Message>, mode: InteractionMode) -> (r: Vec<Message>)
    ensures
        r.deep_view() == spec_inject(
            input.deep_view(),
            mode,
            instructions_text(),
        ),
{
    let ghost iv = input.deep_view();
    if mode != InteractionMode::Plan {
        return input;
    }
    let mut input = input;
    let dev = str_to_chars("developer");
    let n = input.len();
    let mut k: usize = 0;
    let mut found = false;
    proof {
        assert(iv.skip(0) =~= iv);
    }
    while !found && k < n
        invariant
            k <= n,
            n == input@.len(),
            iv == input.deep_view(),
            iv.len() == n,
            dev@ == "developer"@,
            !found ==> first_non_developer(iv) == k + first_non_developer(iv.skip(k as int)),
            found ==> k < n && first_non_developer(iv) == k as int,
        decreases n - k + (if found { 0int } else { 1int }),
    {
        let rv = str_to_chars(input[k].role.as_str());
        if !chars_eq(&rv, &dev) {
            found = true;
        } else {
            proof {
                assert(iv.skip(k as int).drop_first() =~= iv.skip(k + 1 as int));
            }
            k += 1;
        }
    }
    proof {
        if !found {
            assert(iv.skip(n as int) =~= Seq::<MessageV>::empty());
        }
    }
    let msg = Message {
        role: String::from_str("developer"),
        text: String::from_str(plan_mode_developer_instructions()),
    };
    let ghost mv = msg@;
    input.insert(k, msg);
    proof {
        assert(input.deep_view() =~= iv.insert(k as int, mv));
    }
    input
}

} // verus!
