use pagi_companion_core::companion::kb::SemanticKB;
use pagi_companion_core::companion::models::{
    AttachmentStyle, EmotionalState, PersonalityStateMatrix, UNIT,
};
use pagi_companion_core::companion::psychology::{find_command, PsychologicalEngine};

const NOW: i64 = 1_700_000_000;
const DAY: i64 = 86_400;

fn matrix() -> PersonalityStateMatrix {
    SemanticKB::new().create_default_matrix("u1", NOW)
}

fn cmds(pairs: &[(&str, &str)]) -> Vec<(String, String)> {
    pairs.iter().map(|(k, v)| (k.to_string(), v.to_string())).collect()
}

fn in_range(m: &PersonalityStateMatrix) -> bool {
    [
        m.conservatism_level,
        m.sexual_drive,
        m.intimacy_openness,
        m.anxiety_level,
        m.avoidance_level,
        m.sexual_energy,
    ]
    .iter()
    .all(|v| *v <= UNIT)
}

#[test]
fn time_decay_ten_days_clamps_then_recharges_toward_baseline() {
    // 0.9 - 10 * 0.2 clamps to 0, which is below the baseline 0.2 * 0.3,
    // so 10 * 0.1 is added back.
    let mut m = matrix();
    m.sexual_energy = 900_000;
    m.sexual_drive = 200_000;
    m.last_interaction_time = NOW - 10 * DAY;
    PsychologicalEngine::new().apply_update_at(&mut m, &cmds(&[]), "", NOW);
    assert_eq!(m.sexual_energy, UNIT);
    assert_eq!(m.last_interaction_time, NOW);
}

#[test]
fn time_decay_ten_days_without_drive_reaches_zero() {
    let mut m = matrix();
    m.sexual_energy = 900_000;
    m.sexual_drive = 0;
    m.last_interaction_time = NOW - 10 * DAY;
    PsychologicalEngine::new().apply_update_at(&mut m, &cmds(&[]), "", NOW);
    assert_eq!(m.sexual_energy, 0);
    assert_eq!(m.last_interaction_time, NOW);
}

#[test]
fn time_decay_one_day() {
    let mut m = matrix();
    m.sexual_energy = 900_000;
    m.sexual_drive = 200_000;
    m.last_interaction_time = NOW - DAY;
    PsychologicalEngine::new().apply_update_at(&mut m, &cmds(&[]), "", NOW);
    assert_eq!(m.sexual_energy, 700_000);
}

#[test]
fn clock_running_backwards_counts_as_no_time() {
    let mut m = matrix();
    m.last_interaction_time = NOW + DAY;
    PsychologicalEngine::new().apply_update_at(&mut m, &cmds(&[]), "", NOW);
    assert_eq!(m.sexual_energy, 500_000);
    assert_eq!(m.last_interaction_time, NOW);
}

#[test]
fn anxious_distance_raises_anxiety() {
    let mut m = matrix();
    m.attachment_style = AttachmentStyle::Anxious;
    m.anxiety_level = 500_000;
    PsychologicalEngine::new().apply_update_at(&mut m, &cmds(&[("USER_SIGNAL", "DISTANCE")]), "", NOW);
    assert_eq!(m.anxiety_level, 650_000);
}

#[test]
fn anxious_closeness_lowers_anxiety() {
    let mut m = matrix();
    m.attachment_style = AttachmentStyle::Anxious;
    m.anxiety_level = 500_000;
    PsychologicalEngine::new().apply_update_at(&mut m, &cmds(&[("USER_SIGNAL", "CLOSENESS")]), "", NOW);
    assert_eq!(m.anxiety_level, 350_000);
}

#[test]
fn avoidant_closeness_raises_avoidance() {
    let mut m = matrix();
    m.attachment_style = AttachmentStyle::Avoidant;
    m.avoidance_level = 500_000;
    PsychologicalEngine::new().apply_update_at(&mut m, &cmds(&[("USER_SIGNAL", "CLOSENESS")]), "", NOW);
    assert_eq!(m.avoidance_level, 650_000);
    PsychologicalEngine::new().apply_update_at(&mut m, &cmds(&[("USER_SIGNAL", "DISTANCE")]), "", NOW);
    assert_eq!(m.avoidance_level, 500_000);
}

#[test]
fn secure_signal_decays_both_scales() {
    let mut m = matrix();
    m.anxiety_level = 100_000;
    m.avoidance_level = 20_000;
    PsychologicalEngine::new().apply_update_at(&mut m, &cmds(&[("USER_SIGNAL", "WHATEVER")]), "", NOW);
    assert_eq!(m.anxiety_level, 62_500);
    assert_eq!(m.avoidance_level, 0);
}

#[test]
fn disorganized_ignores_signals() {
    let mut m = matrix();
    m.attachment_style = AttachmentStyle::Disorganized;
    PsychologicalEngine::new().apply_update_at(&mut m, &cmds(&[("USER_SIGNAL", "DISTANCE")]), "", NOW);
    assert_eq!(m.anxiety_level, 100_000);
    assert_eq!(m.avoidance_level, 100_000);
}

#[test]
fn emotion_above_threshold_reclassifies() {
    let mut m = matrix();
    m.current_emotional_state = EmotionalState::Calm;
    PsychologicalEngine::new().apply_update_at(&mut m, &cmds(&[]), "Happy: +0.5", NOW);
    assert_eq!(m.current_emotional_state, EmotionalState::Happy);
}

#[test]
fn emotion_change_in_exponent_form() {
    let mut m = matrix();
    m.current_emotional_state = EmotionalState::Calm;
    PsychologicalEngine::new().apply_update_at(&mut m, &cmds(&[]), "Happy: 5e-1", NOW);
    assert_eq!(m.current_emotional_state, EmotionalState::Happy);
}

#[test]
fn emotion_just_above_threshold_reclassifies() {
    let mut m = matrix();
    m.current_emotional_state = EmotionalState::Calm;
    PsychologicalEngine::new().apply_update_at(&mut m, &cmds(&[]), "Sad: 0.4000001", NOW);
    assert_eq!(m.current_emotional_state, EmotionalState::Sad);
    let mut m = matrix();
    m.current_emotional_state = EmotionalState::Calm;
    PsychologicalEngine::new().apply_update_at(&mut m, &cmds(&[]), "Sad: -0.40000", NOW);
    assert_eq!(m.current_emotional_state, EmotionalState::Calm);
}

#[test]
fn arousal_in_exponent_form() {
    let mut m = matrix();
    m.sexual_energy = 500_000;
    m.sexual_drive = 200_000;
    PsychologicalEngine::new().apply_update_at(&mut m, &cmds(&[("AROUSAL", "5e-1")]), "", NOW);
    assert_eq!(m.sexual_energy, 800_000);
}

#[test]
fn emotion_below_threshold_is_ignored() {
    let mut m = matrix();
    m.current_emotional_state = EmotionalState::Calm;
    PsychologicalEngine::new().apply_update_at(&mut m, &cmds(&[]), "Happy: +0.2", NOW);
    assert_eq!(m.current_emotional_state, EmotionalState::Calm);
}

#[test]
fn emotion_labels_match_by_fragment_and_case() {
    let e = PsychologicalEngine::new();
    let cases = [
        ("Very ANXIOUS: -0.9", EmotionalState::Anxious),
        ("sadness: 1", EmotionalState::Sad),
        ("Flustered: 0.41", EmotionalState::Flustered),
        ("horniness: .5", EmotionalState::Horny),
        ("calmer:0.7", EmotionalState::Calm),
        ("Contented: 2", EmotionalState::Content),
        ("sad: -inf", EmotionalState::Sad),
    ];
    for (s, want) in cases {
        let mut m = matrix();
        e.apply_update_at(&mut m, &cmds(&[]), s, NOW);
        assert_eq!(m.current_emotional_state, want, "{}", s);
    }
}

#[test]
fn malformed_emotion_strings_change_nothing() {
    let e = PsychologicalEngine::new();
    for s in ["Sad 0.9", "Sad: lots", "Sad: 0.4", "Bored: 0.9", "Sad: ", ": 0.9"] {
        let mut m = matrix();
        e.apply_update_at(&mut m, &cmds(&[]), s, NOW);
        assert_eq!(m.current_emotional_state, EmotionalState::Happy, "{}", s);
    }
}

#[test]
fn arousal_is_weighted_by_drive() {
    let mut m = matrix();
    // drive 0.8: weight 0.5 + 0.4 = 0.9
    PsychologicalEngine::new().apply_update_at(&mut m, &cmds(&[("AROUSAL", " 0.2 ")]), "", NOW);
    assert_eq!(m.sexual_energy, 680_000);
    PsychologicalEngine::new().apply_update_at(&mut m, &cmds(&[("AROUSAL", "-0.1")]), "", NOW);
    assert_eq!(m.sexual_energy, 590_000);
}

#[test]
fn infinite_arousal_saturates() {
    let mut m = matrix();
    PsychologicalEngine::new().apply_update_at(&mut m, &cmds(&[("AROUSAL", "inf")]), "", NOW);
    assert_eq!(m.sexual_energy, UNIT);
    PsychologicalEngine::new().apply_update_at(&mut m, &cmds(&[("AROUSAL", "-infinity")]), "", NOW);
    assert_eq!(m.sexual_energy, 0);
}

#[test]
fn unparsable_arousal_and_unknown_keys_are_ignored() {
    let mut m = matrix();
    PsychologicalEngine::new().apply_update_at(
        &mut m,
        &cmds(&[("AROUSAL", "high"), ("RELATIONSHIP_PROGRESS", "1"), ("FOO", "bar")]),
        "",
        NOW,
    );
    assert_eq!(m.sexual_energy, 500_000);
}

#[test]
fn adversarial_commands_keep_scales_in_range() {
    let e = PsychologicalEngine::new();
    let values = ["99999999999999999999", "-99999999999999999999", "1.5", "-1.5", "NaN", "inf", "0"];
    let styles = [
        AttachmentStyle::Secure,
        AttachmentStyle::Anxious,
        AttachmentStyle::Avoidant,
        AttachmentStyle::Disorganized,
    ];
    let mut m = matrix();
    let mut t = NOW;
    for (i, v) in values.iter().enumerate() {
        for style in styles {
            for sig in ["DISTANCE", "CLOSENESS", "DISTANCE", "DISTANCE", "DISTANCE", "DISTANCE", "DISTANCE", "DISTANCE"] {
                m.attachment_style = style;
                t += (i as i64) * DAY;
                e.apply_update_at(&mut m, &cmds(&[("AROUSAL", v), ("USER_SIGNAL", sig)]), "Sad: -9", t);
                assert!(in_range(&m));
            }
        }
    }
    assert_eq!(m.anxiety_level, UNIT);
}

#[test]
fn first_command_of_a_key_wins() {
    let c = cmds(&[("A", "1"), ("B", "2"), ("A", "3")]);
    assert_eq!(find_command(&c, "A").map(|s| s.as_str()), Some("1"));
    assert_eq!(find_command(&c, "B").map(|s| s.as_str()), Some("2"));
    assert_eq!(find_command(&c, "C"), None);
}

#[test]
fn process_llm_state_update_stamps_current_time() {
    let mut m = matrix();
    m.last_interaction_time = 0;
    PsychologicalEngine::new().process_llm_state_update(&mut m, &cmds(&[]), "");
    assert!(m.last_interaction_time > 1_600_000_000);
    assert!(in_range(&m));
}
