use voice_type::typing::{typing_plan, TypedState, TypingOutcome, TypingPlan, TypingStep};

#[test]
fn plan_noop_and_append() {
    assert_eq!(typing_plan("你好", "你好"), TypingPlan::Noop);
    assert_eq!(
        typing_plan("你好", "你好世界 hello"),
        TypingPlan::Append("世界 hello".to_string())
    );
    // Empty start appends everything.
    assert_eq!(typing_plan("", "hi"), TypingPlan::Append("hi".to_string()));
}

#[test]
fn plan_replace_on_divergence() {
    // ASR rewrote the last word (homophone): backspace 2 chars, retype.
    assert_eq!(
        typing_plan("你好时间", "你好世界"),
        TypingPlan::Replace {
            backspaces: 2,
            retype: "世界".to_string()
        }
    );
    // Complete rewrite keeps the common prefix only.
    assert_eq!(
        typing_plan("abc", "abd"),
        TypingPlan::Replace {
            backspaces: 1,
            retype: "d".to_string()
        }
    );
    // No common prefix at all.
    assert_eq!(
        typing_plan("xyz", "abc"),
        TypingPlan::Replace {
            backspaces: 3,
            retype: "abc".to_string()
        }
    );
}

#[test]
fn plan_handles_multibyte_boundaries() {
    // Byte-prefix but char-divergent strings must not panic.
    let plan = typing_plan("é", "e");
    assert!(matches!(plan, TypingPlan::Replace { .. }));
}

fn apply(typed: &str, plan: &TypingPlan) -> String {
    match plan {
        TypingPlan::Noop => typed.to_string(),
        TypingPlan::Append(d) => format!("{typed}{d}"),
        TypingPlan::Replace { backspaces, retype } => {
            let keep = typed.chars().count() - backspaces;
            let kept: String = typed.chars().take(keep).collect();
            format!("{kept}{retype}")
        }
    }
}

#[test]
fn plan_applied_reaches_target() {
    let cases = [
        ("", ""),
        ("你好", "你好世界"),
        ("你好时间", "你好世界"),
        ("hello world", "hello"),
        ("abc", ""),
        ("é", "e"),
        ("e", "é"),
    ];
    for (typed, target) in cases {
        let plan = typing_plan(typed, target);
        assert_eq!(apply(typed, &plan), target, "{typed:?} -> {target:?}");
    }
}

#[test]
fn plan_shrinking_text_backspaces_the_tail() {
    assert_eq!(
        typing_plan("hello world", "hello"),
        TypingPlan::Replace {
            backspaces: 6,
            retype: String::new()
        }
    );
}

#[test]
fn typed_state_tracks_screen() {
    let mut st = TypedState::new();
    assert_eq!(st.text(), "");
    match st.type_towards("  你好  ") {
        TypingStep::Type { target, plan } => {
            assert_eq!(target, "你好");
            assert_eq!(plan, TypingPlan::Append("你好".to_string()));
            assert_eq!(st.settle(target, TypingOutcome::Completed), "你好");
        }
        TypingStep::Skip => panic!("non-blank update skipped"),
    }
    assert!(matches!(st.type_towards(" \n\t"), TypingStep::Skip));
    match st.type_towards("你们") {
        TypingStep::Type { target, plan } => {
            assert_eq!(
                plan,
                TypingPlan::Replace {
                    backspaces: 1,
                    retype: "们".to_string()
                }
            );
            // Backspacing failed: nothing changed on screen.
            assert_eq!(st.settle(target.clone(), TypingOutcome::BackspaceFailed), "你好");
            // Deleted but retype failed: the state follows the target.
            assert_eq!(st.settle(target, TypingOutcome::RetypeFailed), "你们");
        }
        TypingStep::Skip => panic!("non-blank update skipped"),
    }
    match st.type_towards("你们好") {
        TypingStep::Type { target, .. } => {
            assert_eq!(st.settle(target, TypingOutcome::AppendFailed), "你们");
        }
        TypingStep::Skip => panic!("non-blank update skipped"),
    }
    st.reset();
    assert_eq!(st.text(), "");
}
