use deck::line::LineRange;
use deck::live::{
    Action, AudioPhase, Effect, Following, Generation, PauseReason, Refusal, Stage, StageId,
    State, UtteranceId, RESUME_AFTER_MS,
};

fn generation() -> Generation {
    Generation("generation-a".into())
}

fn stage(id: &str, line: u32) -> Stage {
    Stage {
        id: StageId(id.into()),
        group: "g1".into(),
        ref_id: Some("g1r1".into()),
        file: Some("src/lib.rs".into()),
        range: Some(LineRange::single(line)),
        quote: format!("line {line}"),
        snapshot: Some("sha256:one".into()),
    }
}

fn open() -> State {
    let mut state = State::new(generation());
    state
        .apply(Action::Opened {
            generation: generation(),
        })
        .unwrap();
    state
}

#[test]
fn a_reaction_uses_the_applied_stage_not_the_pending_request() {
    // A request is not state until the view applies it. Capturing between a
    // paced request and its retry must therefore retain what was on screen.
    let mut state = open();
    state
        .apply(Action::Show {
            generation: generation(),
            stage: stage("s1", 10),
            at_ms: 1_000,
            source_matches: true,
        })
        .unwrap();
    assert_eq!(
        state.apply(Action::Show {
            generation: generation(),
            stage: stage("s2", 20),
            at_ms: 1_100,
            source_matches: true,
        }),
        Err(Refusal::Paced {
            retry_after_ms: 900
        })
    );

    let anchor = state.capture(None).expect("the applied stage is captured");
    assert_eq!(anchor.stage, Some(StageId("s1".into())));
    assert_eq!(anchor.range, Some(LineRange::single(10)));
}

#[test]
fn naming_the_same_target_again_does_not_repaint_or_restart_dwell() {
    let mut state = open();
    state
        .apply(Action::Show {
            generation: generation(),
            stage: stage("request-one", 10),
            at_ms: 1_000,
            source_matches: true,
        })
        .unwrap();

    assert_eq!(
        state
            .apply(Action::Show {
                generation: generation(),
                stage: stage("request-two", 10),
                at_ms: 1_001,
                source_matches: true,
            })
            .unwrap(),
        vec![Effect::StageUnchanged(StageId("request-one".into()))]
    );
    assert_eq!(state.last_stage_at_ms, Some(1_000));
}

#[test]
fn a_composer_keeps_the_anchor_it_opened_with() {
    // Pane indices and the current group may change while somebody types.
    // The state stores a complete value instead of resolving either later.
    let mut state = open();
    state
        .apply(Action::Show {
            generation: generation(),
            stage: stage("s1", 10),
            at_ms: 1_000,
            source_matches: true,
        })
        .unwrap();
    let anchor = state.capture(None).unwrap();
    state
        .apply(Action::OpenComposer {
            generation: generation(),
            anchor: anchor.clone(),
        })
        .unwrap();

    assert_eq!(state.composer, Some(anchor));
    assert_eq!(
        state.apply(Action::Show {
            generation: generation(),
            stage: stage("s2", 20),
            at_ms: 3_000,
            source_matches: true,
        }),
        Err(Refusal::Paused(PauseReason::Composer))
    );
}

#[test]
fn a_paused_reader_cannot_be_moved_by_the_agent() {
    let mut state = open();
    state
        .apply(Action::Pause {
            generation: generation(),
            reason: PauseReason::Navigation,
            at_ms: 0,
        })
        .unwrap();

    assert_eq!(
        state.apply(Action::Show {
            generation: generation(),
            stage: stage("s1", 10),
            at_ms: 1_000,
            source_matches: true,
        }),
        Err(Refusal::Paused(PauseReason::Navigation))
    );
    assert!(state.stage.is_none());
}

#[test]
fn opening_gives_movement_back() {
    // The bug a reader actually hit: every exit pauses with
    // `InactiveWindow`, and `Opened` used to set the lifecycle and nothing
    // else — so a deck that had been hidden once could never be followed
    // again without pressing a key nobody knew about.
    let mut state = open();
    state
        .apply(Action::Hidden {
            generation: generation(),
        })
        .unwrap();
    assert_eq!(
        state.following,
        Following::Paused(PauseReason::InactiveWindow)
    );

    let effects = state
        .apply(Action::Opened {
            generation: generation(),
        })
        .unwrap();

    assert_eq!(state.following, Following::Following);
    assert!(effects.contains(&Effect::FollowingResumed));
    state
        .apply(Action::Show {
            generation: generation(),
            stage: stage("s1", 10),
            at_ms: 10_000,
            source_matches: true,
        })
        .expect("a reopened deck can be moved again");
}

#[test]
fn finishing_a_comment_gives_movement_back() {
    // The same class of bug one layer down: closing the composer dropped
    // the anchor and left the pause, so following died on the reader's
    // first comment and never returned.
    let mut state = open();
    state
        .apply(Action::Show {
            generation: generation(),
            stage: stage("s1", 10),
            at_ms: 1_000,
            source_matches: true,
        })
        .unwrap();
    let anchor = state.capture(None).unwrap();
    state
        .apply(Action::OpenComposer {
            generation: generation(),
            anchor,
        })
        .unwrap();
    state
        .apply(Action::CloseComposer {
            generation: generation(),
        })
        .unwrap();

    assert_eq!(state.following, Following::Following);
    state
        .apply(Action::Show {
            generation: generation(),
            stage: stage("s2", 20),
            at_ms: 5_000,
            source_matches: true,
        })
        .expect("movement returns once the comment is finished");
}

#[test]
fn a_hold_lets_go_without_waiting_for_a_show() {
    // The view asks whether the reader is holding the pane before it
    // follows the voice down the file. A lapsed scroll must answer no by
    // itself — nobody is going to send a show request to notice.
    let mut state = open();
    state
        .apply(Action::Pause {
            generation: generation(),
            reason: PauseReason::Navigation,
            at_ms: 1_000,
        })
        .unwrap();
    assert!(state.holds(1_500));
    assert!(!state.holds(1_000 + RESUME_AFTER_MS));

    state
        .apply(Action::Pause {
            generation: generation(),
            reason: PauseReason::Composer,
            at_ms: 1_000,
        })
        .unwrap();
    assert!(state.holds(1_000_000), "a composer holds until it closes");
}

#[test]
fn a_scroll_lapses_but_a_composer_does_not() {
    // Scrolling is something a reader does while watching. It takes
    // priority, then gives it back. A composer owns its anchor until it
    // closes, however long that takes.
    let mut state = open();
    state
        .apply(Action::Pause {
            generation: generation(),
            reason: PauseReason::Selection,
            at_ms: 1_000,
        })
        .unwrap();

    assert_eq!(
        state.apply(Action::Show {
            generation: generation(),
            stage: stage("s1", 10),
            at_ms: 1_500,
            source_matches: true,
        }),
        Err(Refusal::Paused(PauseReason::Selection)),
        "still the reader's, a moment later"
    );
    state
        .apply(Action::Show {
            generation: generation(),
            stage: stage("s1", 10),
            at_ms: 1_000 + RESUME_AFTER_MS,
            source_matches: true,
        })
        .expect("and the agent's again once the reader has been still");
    assert_eq!(state.following, Following::Following);
}

#[test]
fn a_scroll_does_not_cancel_a_composer() {
    // Ordering matters: a lapsing pause must not displace one the reader
    // has to clear by hand, or a stray scroll would hand the agent the
    // anchor somebody is still typing against.
    let mut state = open();
    state
        .apply(Action::Show {
            generation: generation(),
            stage: stage("s1", 10),
            at_ms: 1_000,
            source_matches: true,
        })
        .unwrap();
    let anchor = state.capture(None).unwrap();
    state
        .apply(Action::OpenComposer {
            generation: generation(),
            anchor,
        })
        .unwrap();
    state
        .apply(Action::Pause {
            generation: generation(),
            reason: PauseReason::Navigation,
            at_ms: 1_100,
        })
        .unwrap();

    assert_eq!(
        state.following,
        Following::Paused(PauseReason::Composer),
        "the composer still holds it"
    );
}

#[test]
fn an_old_generation_cannot_change_a_reopened_session() {
    let mut state = open();
    assert_eq!(
        state.apply(Action::Show {
            generation: Generation("old-owner".into()),
            stage: stage("s1", 10),
            at_ms: 1_000,
            source_matches: true,
        }),
        Err(Refusal::StaleGeneration)
    );
    assert!(state.stage.is_none());
}

#[test]
fn hiding_interrupts_audio_and_stops_following() {
    // Audio cannot continue from a bar with no visible explanation, and a
    // hidden session must not accept movement until the reader reopens it.
    let mut state = open();
    let utterance = UtteranceId("u1".into());
    state
        .apply(Action::StartAudio {
            generation: generation(),
            utterance: utterance.clone(),
        })
        .unwrap();
    let effects = state
        .apply(Action::Hidden {
            generation: generation(),
        })
        .unwrap();

    assert_eq!(state.audio, AudioPhase::Interrupted);
    assert_eq!(
        state.following,
        Following::Paused(PauseReason::InactiveWindow)
    );
    assert!(effects.contains(&Effect::AudioChanged {
        utterance,
        phase: AudioPhase::Interrupted,
    }));
}

#[test]
fn stale_audio_completion_cannot_revive_a_cancelled_voice() {
    let mut state = open();
    state
        .apply(Action::StartAudio {
            generation: generation(),
            utterance: UtteranceId("new".into()),
        })
        .unwrap();

    assert_eq!(
        state.apply(Action::AudioChanged {
            generation: generation(),
            utterance: UtteranceId("old".into()),
            phase: AudioPhase::Completed,
        }),
        Err(Refusal::StaleUtterance)
    );
    assert_eq!(state.audio, AudioPhase::Preparing);
}

#[test]
fn source_changes_are_refused_before_the_spotlight_moves() {
    let mut state = open();
    assert_eq!(
        state.apply(Action::Show {
            generation: generation(),
            stage: stage("s1", 10),
            at_ms: 1_000,
            source_matches: false,
        }),
        Err(Refusal::SourceChanged)
    );
    assert!(state.stage.is_none());
}

#[test]
fn a_second_voice_is_refused_while_the_first_is_active() {
    let mut state = open();
    state
        .apply(Action::StartAudio {
            generation: generation(),
            utterance: UtteranceId("u1".into()),
        })
        .unwrap();
    assert_eq!(
        state.apply(Action::StartAudio {
            generation: generation(),
            utterance: UtteranceId("u2".into()),
        }),
        Err(Refusal::Busy)
    );
    state
        .apply(Action::AudioChanged {
            generation: generation(),
            utterance: UtteranceId("u1".into()),
            phase: AudioPhase::Completed,
        })
        .unwrap();
    assert_eq!(
        state
            .apply(Action::StartAudio {
                generation: generation(),
                utterance: UtteranceId("u2".into()),
            })
            .unwrap(),
        vec![Effect::AudioChanged {
            utterance: UtteranceId("u2".into()),
            phase: AudioPhase::Preparing,
        }]
    );
}

#[test]
fn a_hidden_deck_cannot_be_resumed_or_moved() {
    let mut state = open();
    state
        .apply(Action::Hidden {
            generation: generation(),
        })
        .unwrap();
    assert_eq!(
        state.apply(Action::Resume {
            generation: generation(),
        }),
        Err(Refusal::NotVisible)
    );
    assert_eq!(
        state.apply(Action::Show {
            generation: generation(),
            stage: stage("s1", 10),
            at_ms: 1_000,
            source_matches: true,
        }),
        Err(Refusal::NotVisible)
    );
}

#[test]
fn a_lapsed_pause_is_forgotten_even_when_a_composer_refuses_the_show() {
    let mut state = open();
    state
        .apply(Action::Show {
            generation: generation(),
            stage: stage("s1", 10),
            at_ms: 1_000,
            source_matches: true,
        })
        .unwrap();
    let anchor = state.capture(None).unwrap();
    state.composer = Some(anchor);
    state.following = Following::Paused(PauseReason::Navigation);
    state.paused_at_ms = Some(1_000);
    assert_eq!(
        state.apply(Action::Show {
            generation: generation(),
            stage: stage("s2", 20),
            at_ms: 1_000 + RESUME_AFTER_MS,
            source_matches: true,
        }),
        Err(Refusal::ComposerOwnsAnchor)
    );
    assert_eq!(state.following, Following::Following);
    assert_eq!(state.paused_at_ms, None);
}

#[test]
fn a_new_session_waits_and_follows() {
    let state = State::new(generation());
    assert!(!state.holds(0));
    assert!(state.capture(None).is_none());
    assert_eq!(state.audio, AudioPhase::Idle);
    assert_eq!(state.following, Following::Following);
}

#[test]
fn pacing_says_how_long_to_wait() {
    let mut state = open();
    state
        .apply(Action::Show {
            generation: generation(),
            stage: stage("s1", 10),
            at_ms: 5_000,
            source_matches: true,
        })
        .unwrap();
    assert_eq!(
        state.apply(Action::Show {
            generation: generation(),
            stage: stage("s2", 20),
            at_ms: 5_250,
            source_matches: true,
        }),
        Err(Refusal::Paced {
            retry_after_ms: 750
        })
    );
    assert_eq!(
        state
            .apply(Action::Show {
                generation: generation(),
                stage: stage("s2", 20),
                at_ms: 6_000,
                source_matches: true,
            })
            .unwrap(),
        vec![Effect::StageApplied(stage("s2", 20))]
    );
    assert_eq!(state.last_stage_at_ms, Some(6_000));
    assert_eq!(state.capture(None).unwrap().stage, Some(StageId("s2".into())));
}

#[test]
fn a_submitted_or_closed_session_stays_ended() {
    for end in [
        Action::Submitted { generation: generation() },
        Action::Closed { generation: generation() },
    ] {
        let mut state = open();
        state.apply(end).unwrap();
        let ended = state.lifecycle;
        assert_eq!(
            state.apply(Action::Opened { generation: generation() }),
            Err(Refusal::NotVisible)
        );
        assert_eq!(
            state.apply(Action::Hidden { generation: generation() }),
            Err(Refusal::NotVisible)
        );
        assert_eq!(state.lifecycle, ended, "nothing reopens or hides it");
    }
}
