use pagi_companion_core::brain::tactical_llm::extract_json_block;
use pagi_companion_core::companion::kb::SemanticKB;
use pagi_companion_core::companion::models::{
    default_anxiety_level, default_avoidance_level, default_sexual_energy, AttachmentStyle,
    EmotionalState, FlirtyStyle, LoveLanguage, RelationshipStage,
};
use pagi_companion_core::prime_core::models::PhaseStatus;
use pagi_companion_core::security::cryptography::hash_data;
use pagi_companion_core::security::AgentIdentity;
use pagi_companion_core::text::{chars_of, parse_decimal, push_decimal};

fn parse(s: &str) -> Option<i64> {
    parse_decimal(&chars_of(s)).map(|(v, _)| v)
}

fn parse_full(s: &str) -> Option<(i64, bool)> {
    parse_decimal(&chars_of(s))
}

#[test]
fn decimal_numbers_parse_in_millionths() {
    assert_eq!(parse("0.5"), Some(500_000));
    assert_eq!(parse("+0.5"), Some(500_000));
    assert_eq!(parse("-1.25"), Some(-1_250_000));
    assert_eq!(parse(".5"), Some(500_000));
    assert_eq!(parse("3."), Some(3_000_000));
    assert_eq!(parse("0.12345678"), Some(123_456));
    assert_eq!(parse("123456789"), Some(1_000_000_000));
    assert_eq!(parse("-123456789"), Some(-1_000_000_000));
    assert_eq!(parse("inf"), Some(1_000_000_000));
    assert_eq!(parse("-Infinity"), Some(-1_000_000_000));
    assert_eq!(parse("+INF"), Some(1_000_000_000));
    for bad in ["", ".", "-", "+.", "abc", "1.2.3", " 1", "--1", "nan", "infin", "in", "e5", "1e", "1e+", ".e1", "1e2.5", "1ee2"] {
        assert_eq!(parse(bad), None, "{}", bad);
    }
}

#[test]
fn decimal_numbers_with_exponents() {
    assert_eq!(parse("5e-1"), Some(500_000));
    assert_eq!(parse("1E0"), Some(1_000_000));
    assert_eq!(parse("-2.5e+2"), Some(-250_000_000));
    assert_eq!(parse("12.5e-3"), Some(12_500));
    assert_eq!(parse("1e3"), Some(1_000_000_000));
    assert_eq!(parse("0.0000001e7"), Some(1_000_000));
    assert_eq!(parse("1e999999999999999999999"), Some(1_000_000_000));
    assert_eq!(parse("0e999999999999999999999"), Some(0));
    assert_eq!(parse_full("1e-999999999999999999999"), Some((0, true)));
}

#[test]
fn digits_below_a_millionth_are_flagged() {
    assert_eq!(parse_full("0.4000001"), Some((400_000, true)));
    assert_eq!(parse_full("0.4000000"), Some((400_000, false)));
    assert_eq!(parse_full("-1e-7"), Some((0, true)));
    assert_eq!(parse_full("0.5"), Some((500_000, false)));
}

#[test]
fn decimal_digits_are_appended() {
    let mut s = "id=".to_string();
    push_decimal(&mut s, 1234);
    assert_eq!(s, "id=1234");
    let mut z = String::new();
    push_decimal(&mut z, 0);
    assert_eq!(z, "0");
    let mut m = String::new();
    push_decimal(&mut m, u64::MAX);
    assert_eq!(m, u64::MAX.to_string());
}

#[test]
fn json_block_from_fence() {
    let raw = "Here you go:\n```json\n{\"response\": \"hi\"}\n```\nbye";
    assert_eq!(extract_json_block(raw), "\n{\"response\": \"hi\"}\n");
}

#[test]
fn json_block_from_braces() {
    assert_eq!(extract_json_block("noise {\"a\": {\"b\": 1}} tail"), "{\"a\": {\"b\": 1}}");
    assert_eq!(extract_json_block("```json {\"a\": 1} no closing fence"), "{\"a\": 1}");
}

#[test]
fn json_block_falls_back_to_raw() {
    assert_eq!(extract_json_block("no json here"), "no json here");
    assert_eq!(extract_json_block("} backwards {"), "} backwards {");
}

#[test]
fn sha256_of_abc() {
    let d = hash_data(b"abc");
    let hex: String = d.iter().map(|b| format!("{:02x}", b)).collect();
    assert_eq!(hex, "ba7816bf8f01cfea414140de5dae2223b00361a396177a9cb410ff61f20015ad");
}

#[test]
fn generated_identity_has_matching_key_pair() {
    let id = AgentIdentity::new_with_generation("PAGI-u1".to_string());
    assert_eq!(id.agent_id, "PAGI-u1");
    assert_eq!(id.private_key_bytes.len(), 32);
    let secret: [u8; 32] = id.private_key_bytes.as_slice().try_into().unwrap();
    let public = ed25519_dalek::SigningKey::from_bytes(&secret).verifying_key().to_bytes();
    assert_eq!(id.public_key_bytes, public.to_vec());
    let other = AgentIdentity::new_with_generation("PAGI-u1".to_string());
    assert_ne!(id.private_key_bytes, other.private_key_bytes);
}

#[test]
fn default_matrix_fields() {
    let kb = SemanticKB::new();
    let m = kb.create_default_matrix("u1", 42);
    assert_eq!(m.name, "Skylar");
    assert_eq!(m.gender, "Female");
    assert_eq!(m.primary_role, "Flirty Girlfriend");
    assert_eq!((m.conservatism_level, m.sexual_drive, m.intimacy_openness), (200_000, 800_000, 900_000));
    assert_eq!(m.attachment_style, AttachmentStyle::Secure);
    assert_eq!(m.love_language, LoveLanguage::PhysicalTouch);
    assert_eq!(m.flirty_style, FlirtyStyle::Bold);
    assert_eq!(m.current_emotional_state, EmotionalState::Happy);
    assert_eq!(m.relationship_stage, RelationshipStage::Dating);
    assert_eq!(m.current_kinks_list, vec!["praise".to_string(), "teasing".to_string()]);
    assert_eq!(m.current_boundaries_list, vec!["safe word 'exit'".to_string()]);
    assert_eq!(m.anxiety_level, default_anxiety_level());
    assert_eq!(m.avoidance_level, default_avoidance_level());
    assert_eq!(m.sexual_energy, default_sexual_energy());
    assert_eq!(m.last_interaction_time, 42);
}

#[test]
fn default_matrix_is_the_same_for_every_user_and_call() {
    let kb = SemanticKB::new();
    let a = kb.create_default_matrix("u1", 7);
    let b = kb.create_default_matrix("u2", 7);
    assert_eq!(format!("{:?}", a), format!("{:?}", b));
}

#[test]
fn state_file_paths() {
    let kb = SemanticKB::new();
    assert_eq!(kb.get_file_path("u1"), "./companion_data/u1.json");
    assert_eq!(kb.get_identity_file_path("u1"), "./companion_data/u1_identity.json");
}

#[test]
fn phase_status_values_compare() {
    assert_ne!(PhaseStatus::Pending, PhaseStatus::Completed);
    assert_eq!(PhaseStatus::Failed, PhaseStatus::Failed);
}

#[test]
fn system_prompt_of_default_matrix() {
    let m = SemanticKB::new().create_default_matrix("u1", 0);
    assert_eq!(
        m.to_system_prompt_string(),
        "You are Skylar. Your current role is Flirty Girlfriend. Your personality settings are: \
         Attachment=Secure, Love Language=PhysicalTouch, Conservatism=0.20, Drive=0.80, \
         Anxiety=0.10, Avoidance=0.10, SexualEnergy=0.50. Your current emotional state is Happy \
         in a Dating relationship stage. Kinks include: [\"praise\", \"teasing\"]."
    );
}

#[test]
fn system_prompt_rounds_and_escapes() {
    let mut m = SemanticKB::new().create_default_matrix("u1", 0);
    m.conservatism_level = 125_000;
    m.sexual_drive = 1_000_000;
    m.intimacy_openness = 0;
    m.anxiety_level = 4_999;
    m.avoidance_level = 5_000;
    m.sexual_energy = 994_999;
    m.current_kinks_list = vec!["say \"hi\"\n".to_string()];
    let p = m.to_system_prompt_string();
    assert!(p.contains("Conservatism=0.13, Drive=1.00, Anxiety=0.00, Avoidance=0.01, SexualEnergy=0.99."), "{}", p);
    assert!(p.ends_with("Kinks include: [\"say \\\"hi\\\"\\n\"]."), "{}", p);
    m.current_kinks_list = Vec::new();
    assert!(m.to_system_prompt_string().ends_with("Kinks include: []."));
}
