//! Live typing of streaming transcripts: what must be typed to move the
//! on-screen text from what was typed so far to the newest transcript.
use vstd::prelude::*;
use vstd::string::{StrSliceExecFns, StringExecFns};
use crate::text::{chars_of, trim, trim_str};

verus! {

/// What must be typed to move the on-screen text from `typed` to `target`.
#[derive(Debug, PartialEq, Eq)]
pub enum TypingPlan {
    /// Nothing to do (identical).
    Noop,
    /// The new text only appended: type this delta at the cursor.
    Append(String),
    /// The ASR rewrote earlier text: `backspaces` chars to delete, then this
    /// text to type (from the longest common prefix).
    Replace { backspaces: usize, retype: String },
}

/// [`TypingPlan`] over character sequences.
pub enum PlanView {
    Noop,
    Append(Seq<char>),
    Replace { backspaces: nat, retype: Seq<char> },
}

impl View for TypingPlan {
    type V = PlanView;

    open spec fn view(&self) -> PlanView {
        match self {
            TypingPlan::Noop => PlanView::Noop,
            TypingPlan::Append(d) => PlanView::Append(d@),
            TypingPlan::Replace { backspaces, retype } => PlanView::Replace {
                backspaces: *backspaces as nat,
                retype: retype@,
            },
        }
    }
}

/// Length of the longest common prefix of `a` and `b`.
pub open spec fn common_prefix_len(a: Seq<char>, b: Seq<char>) -> nat
    decreases a.len(),
{
    if a.len() > 0 && b.len() > 0 && a[0] == b[0] {
        1 + common_prefix_len(a.drop_first(), b.drop_first())
    } else {
        0
    }
}

/// The plan between two texts: nothing when equal; the tail when `target`
/// extends `typed`; otherwise delete back to the longest common prefix and
/// type the rest of `target`.
pub open spec fn spec_typing_plan(typed: Seq<char>, target: Seq<char>) -> PlanView {
    if typed == target {
        PlanView::Noop
    } else if typed.is_prefix_of(target) {
        PlanView::Append(target.skip(typed.len() as int))
    } else {
        let k = common_prefix_len(typed, target);
        PlanView::Replace { backspaces: (typed.len() - k) as nat, retype: target.skip(k as int) }
    }
}

/// The text on screen after carrying out `plan` over `typed`.
pub open spec fn apply_plan(typed: Seq<char>, plan: PlanView) -> Seq<char> {
    match plan {
        PlanView::Noop => typed,
        PlanView::Append(d) => typed + d,
        PlanView::Replace { backspaces, retype } => typed.take(typed.len() - backspaces) + retype,
    }
}

/// Characters a plan deletes.
pub open spec fn plan_backspaces(plan: PlanView) -> nat {
    match plan {
        PlanView::Replace { backspaces, .. } => backspaces,
        _ => 0,
    }
}

pub proof fn lemma_common_prefix(a: Seq<char>, b: Seq<char>)
    ensures
        common_prefix_len(a, b) <= a.len(),
        common_prefix_len(a, b) <= b.len(),
        a.take(common_prefix_len(a, b) as int) == b.take(common_prefix_len(a, b) as int),
        common_prefix_len(a, b) < a.len() && common_prefix_len(a, b) < b.len() ==> a[common_prefix_len(
            a,
            b,
        ) as int] != b[common_prefix_len(a, b) as int],
    decreases a.len(),
{
    if a.len() > 0 && b.len() > 0 && a[0] == b[0] {
        let k = common_prefix_len(a, b);
        lemma_common_prefix(a.drop_first(), b.drop_first());
        assert(a.take(k as int) =~= seq![a[0]] + a.drop_first().take(k - 1));
        assert(b.take(k as int) =~= seq![b[0]] + b.drop_first().take(k - 1));
        if k < a.len() && k < b.len() {
            assert(a[k as int] == a.drop_first()[k - 1]);
            assert(b[k as int] == b.drop_first()[k - 1]);
        }
    } else {
        assert(a.take(0) =~= b.take(0));
    }
}

/// The common prefix length is the first position where the texts differ.
proof fn lemma_common_prefix_from(a: Seq<char>, b: Seq<char>, k: int)
    requires
        0 <= k <= a.len(),
        k <= b.len(),
        forall|i: int| 0 <= i < k ==> a[i] == b[i],
        k < a.len() && k < b.len() ==> a[k] != b[k],
    ensures
        common_prefix_len(a, b) == k,
    decreases a.len(),
{
    if k > 0 {
        assert(a[0] == b[0]);
        lemma_common_prefix_from(a.drop_first(), b.drop_first(), k - 1);
    }
}

/// Carrying out the plan turns the typed text into the target, and never
/// deletes more than was typed.
pub proof fn lemma_plan_reaches_target(typed: Seq<char>, target: Seq<char>)
    ensures
        apply_plan(typed, spec_typing_plan(typed, target)) == target,
        plan_backspaces(spec_typing_plan(typed, target)) <= typed.len(),
{
    lemma_common_prefix(typed, target);
    if typed == target {
    } else if typed.is_prefix_of(target) {
        assert(typed + target.skip(typed.len() as int) =~= target);
    } else {
        let k = common_prefix_len(typed, target);
        assert(typed.take(k as int) + target.skip(k as int) =~= target);
    }
}

/// The plan deletes as little as possible: whenever keeping the first `k`
/// typed characters could still reach the target (they are a prefix of it),
/// the plan deletes at most `typed.len() - k` characters.
pub proof fn lemma_plan_minimal(typed: Seq<char>, target: Seq<char>, k: nat)
    requires
        k <= typed.len(),
        typed.take(k as int).is_prefix_of(target),
    ensures
        plan_backspaces(spec_typing_plan(typed, target)) <= typed.len() - k,
{
    lemma_common_prefix(typed, target);
    if typed == target || typed.is_prefix_of(target) {
    } else {
        let c = common_prefix_len(typed, target);
        if k > c {
            assert(typed.take(k as int)[c as int] == target[c as int]);
            assert(typed[c as int] == typed.take(k as int)[c as int]);
        }
    }
}

/// Computes the minimal typing action between two streaming results.
pub fn typing_plan(typed: &str, target: &str) -> (plan: TypingPlan)
    ensures
        plan@ == spec_typing_plan(typed@, target@),
{
    let a = chars_of(typed);
    let b = chars_of(target);
    let mut k: usize = 0;
    while k < a.len() && k < b.len() && a[k] == b[k]
        invariant
            a@ == typed@,
            b@ == target@,
            k <= a@.len(),
            k <= b@.len(),
            forall|i: int| 0 <= i < k ==> a@[i] == b@[i],
        decreases a@.len() - k,
    {
        k = k + 1;
    }
    proof {
        lemma_common_prefix_from(typed@, target@, k as int);
    }
    let tlen = b.len();
    if k == a.len() && k == tlen {
        assert(typed@ =~= target@);
        TypingPlan::Noop
    } else if k == a.len() {
        proof {
            assert(typed@.is_prefix_of(target@));
            assert(typed@ != target@);
        }
        TypingPlan::Append(String::from_str(target.substring_char(k, tlen)))
    } else {
        proof {
            assert(!typed@.is_prefix_of(target@)) by {
                if typed@.is_prefix_of(target@) {
                    assert(a@[k as int] == b@[k as int]);
                }
            }
            assert(target@.subrange(k as int, tlen as int) =~= target@.skip(k as int));
        }
        TypingPlan::Replace {
            backspaces: a.len() - k,
            retype: String::from_str(target.substring_char(k, tlen)),
        }
    }
}

/// What to do for one streaming update.
pub enum TypingStep {
    /// The update is blank: nothing is typed.
    Skip,
    /// Carry out `plan`, which leads to the trimmed update `target`.
    Type { target: String, plan: TypingPlan },
}

/// How carrying out a typing step went.
pub enum TypingOutcome {
    /// Every keystroke was sent.
    Completed,
    /// Typing the appended delta failed: nothing reached the screen.
    AppendFailed,
    /// Deleting the diverging tail failed: nothing reached the screen.
    BackspaceFailed,
    /// The tail was deleted but retyping failed.
    RetypeFailed,
}

/// Tracks what has already been typed at the cursor for the current
/// utterance so streaming updates only need to type the delta (and can
/// backspace over a divergence if the ASR rewrites earlier text).
pub struct TypedState {
    text: String,
}

impl TypedState {
    /// The text typed so far.
    pub closed spec fn typed(self) -> Seq<char> {
        self.text@
    }

    pub fn new() -> (s: TypedState)
        ensures
            s.typed() == Seq::<char>::empty(),
    {
        TypedState { text: String::new() }
    }

    /// The text typed so far.
    pub fn text(&self) -> (s: &str)
        ensures
            s@ == self.typed(),
    {
        self.text.as_str()
    }

    /// Starts a new utterance: nothing is typed yet.
    pub fn reset(&mut self)
        ensures
            final(self).typed() == Seq::<char>::empty(),
    {
        self.text = String::new();
    }

    /// The step that moves the screen from what is typed to the trimmed
    /// `target`; a blank target types nothing.
    pub fn type_towards(&self, target: &str) -> (step: TypingStep)
        ensures
            match step {
                TypingStep::Skip => trim(target@).len() == 0,
                TypingStep::Type { target: t, plan } => {
                    &&& trim(target@).len() > 0
                    &&& t@ == trim(target@)
                    &&& plan@ == spec_typing_plan(self.typed(), trim(target@))
                },
            },
    {
        let t = trim_str(target);
        if t.is_empty() {
            TypingStep::Skip
        } else {
            let plan = typing_plan(self.text.as_str(), t);
            TypingStep::Type { target: String::from_str(t), plan }
        }
    }

    /// Records how a typing step went and returns the text now on screen:
    /// the step's target once anything of it may have reached the screen
    /// (complete, or deleted but not retyped), the previous text when the
    /// first keystrokes already failed.
    pub fn settle(&mut self, target: String, outcome: TypingOutcome) -> (on_screen: String)
        ensures
            final(self).typed() == match outcome {
                TypingOutcome::AppendFailed | TypingOutcome::BackspaceFailed => old(self).typed(),
                _ => target@,
            },
            on_screen@ == final(self).typed(),
    {
        match outcome {
            TypingOutcome::AppendFailed | TypingOutcome::BackspaceFailed => {},
            _ => {
                self.text = target;
            },
        }
        self.text.clone()
    }
}

} // verus!
