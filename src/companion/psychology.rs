//! Deterministic transitions of the personality record, driven by the language
//! model's suggested emotion change and state commands.
use vstd::prelude::*;
use crate::companion::models::{AttachmentStyle, EmotionalState, PersonalityStateMatrix, UNIT};
use crate::text::{
    chars_of, contains_folded, decimal_value, first_index, has_folded, parse_decimal, str_eq,
    trim_bounds, trimmed,
};

verus! {

/// Seconds in one day.
pub const SECONDS_PER_DAY: i128 = 86_400;

/// Sexual energy lost per day without interaction, in millionths.
pub const TIME_DECAY_RATE_PER_DAY: i128 = 200_000;

/// Sexual energy regained per day while below the baseline, in millionths.
pub const TIME_RECHARGE_RATE_PER_DAY: i128 = 100_000;

/// How far one relational signal moves an attachment scale, in millionths.
pub const ATTACHMENT_SENSITIVITY: i64 = 150_000;

/// Magnitude, in millionths, that an emotion change must exceed to reclassify the emotion.
pub const EMOTION_THRESHOLD: i64 = 400_000;

/// `v` held within `[0, UNIT]`.
pub open spec fn clamp01(v: int) -> int {
    if v < 0 {
        0
    } else if v > UNIT {
        UNIT as int
    } else {
        v
    }
}

/// Seconds since `last`, or zero when `now` is not later.
pub open spec fn elapsed_secs(last: i64, now: i64) -> int {
    if now > last {
        now - last
    } else {
        0
    }
}

/// Sexual energy after `secs` seconds without interaction: it decays, and where
/// it falls below the baseline set by the drive it is pulled up again.
pub open spec fn drifted_energy(energy: int, drive: int, secs: int) -> int {
    let decayed = clamp01(energy - secs * TIME_DECAY_RATE_PER_DAY as int / SECONDS_PER_DAY as int);
    let baseline = clamp01(drive * 3 / 10);
    if decayed < baseline {
        clamp01(decayed + secs * TIME_RECHARGE_RATE_PER_DAY as int / SECONDS_PER_DAY as int)
    } else {
        decayed
    }
}

/// The emotion that a label names, by the first fragment it contains (case aside).
pub open spec fn emotion_for_label(label: Seq<char>) -> Option<EmotionalState> {
    if contains_folded(label, "happy"@) {
        Some(EmotionalState::Happy)
    } else if contains_folded(label, "content"@) {
        Some(EmotionalState::Content)
    } else if contains_folded(label, "anx"@) {
        Some(EmotionalState::Anxious)
    } else if contains_folded(label, "sad"@) {
        Some(EmotionalState::Sad)
    } else if contains_folded(label, "calm"@) {
        Some(EmotionalState::Calm)
    } else if contains_folded(label, "fluster"@) {
        Some(EmotionalState::Flustered)
    } else if contains_folded(label, "horn"@) {
        Some(EmotionalState::Horny)
    } else {
        None
    }
}

/// A number read as `v` millionths, rounded toward zero (`dropped` when nonzero
/// digits were cut), has a magnitude above `EMOTION_THRESHOLD`.
pub open spec fn exceeds_threshold(v: int, dropped: bool) -> bool {
    v > EMOTION_THRESHOLD || v < -EMOTION_THRESHOLD || ((v == EMOTION_THRESHOLD || v
        == -EMOTION_THRESHOLD) && dropped)
}

/// The emotional state after the suggestion `s` of the form `"<label>: <number>"`.
pub open spec fn emotion_after(current: EmotionalState, s: Seq<char>) -> EmotionalState {
    let c = first_index(s, ':') as int;
    if c < s.len() {
        match decimal_value(trimmed(s.subrange(c + 1, s.len() as int))) {
            Some((v, dropped)) => if exceeds_threshold(v, dropped) {
                match emotion_for_label(s.subrange(0, c)) {
                    Some(e) => e,
                    None => current,
                }
            } else {
                current
            },
            None => current,
        }
    } else {
        current
    }
}

/// `change` scaled by `mult` millionths, rounded toward zero.
pub open spec fn scaled(change: int, mult: int) -> int {
    if change >= 0 {
        change * mult / UNIT as int
    } else {
        -((-change) * mult / UNIT as int)
    }
}

/// Sexual energy after an `AROUSAL` command holding `cmd`: the change, weighted
/// by one half plus half the drive (in whole millionths, rounded down), is added.
pub open spec fn aroused_energy(energy: int, drive: int, cmd: Option<Seq<char>>) -> int {
    match cmd {
        Some(v) => match decimal_value(trimmed(v)) {
            Some((c, _)) => clamp01(energy + scaled(c, UNIT / 2 + drive / 2)),
            None => energy,
        },
        None => energy,
    }
}

/// (anxiety, avoidance) after a `USER_SIGNAL` command holding `signal`.
pub open spec fn attachment_after(
    style: AttachmentStyle,
    anxiety: int,
    avoidance: int,
    signal: Option<Seq<char>>,
) -> (int, int) {
    match signal {
        None => (anxiety, avoidance),
        Some(sig) => match style {
            AttachmentStyle::Anxious => if sig == "DISTANCE"@ {
                (clamp01(anxiety + ATTACHMENT_SENSITIVITY), avoidance)
            } else if sig == "CLOSENESS"@ {
                (clamp01(anxiety - ATTACHMENT_SENSITIVITY), avoidance)
            } else {
                (anxiety, avoidance)
            },
            AttachmentStyle::Avoidant => if sig == "CLOSENESS"@ {
                (anxiety, clamp01(avoidance + ATTACHMENT_SENSITIVITY))
            } else if sig == "DISTANCE"@ {
                (anxiety, clamp01(avoidance - ATTACHMENT_SENSITIVITY))
            } else {
                (anxiety, avoidance)
            },
            AttachmentStyle::Secure => (
                clamp01(anxiety - ATTACHMENT_SENSITIVITY / 4),
                clamp01(avoidance - ATTACHMENT_SENSITIVITY / 4),
            ),
            AttachmentStyle::Disorganized => (anxiety, avoidance),
        },
    }
}

/// The commands as (key, value) character sequences.
pub open spec fn commands_view(cmds: Seq<(String, String)>) -> Seq<(Seq<char>, Seq<char>)> {
    cmds.map_values(|p: (String, String)| (p.0@, p.1@))
}

/// The value of the first command named `key`.
pub open spec fn command_value(cmds: Seq<(Seq<char>, Seq<char>)>, key: Seq<char>) -> Option<
    Seq<char>,
>
    decreases cmds.len(),
{
    if cmds.len() == 0 {
        None
    } else if cmds[0].0 == key {
        Some(cmds[0].1)
    } else {
        command_value(cmds.drop_first(), key)
    }
}

/// No two commands share a key.
pub open spec fn distinct_keys(cmds: Seq<(Seq<char>, Seq<char>)>) -> bool {
    forall|i: int, j: int| 0 <= i < j < cmds.len() ==> (#[trigger] cmds[i]).0 != (#[trigger] cmds[j]).0
}

/// Commands with distinct keys act as a map: the value found under the key of
/// any command is that command's value.
pub proof fn lemma_command_value_of_entry(cmds: Seq<(Seq<char>, Seq<char>)>, i: int)
    requires
        distinct_keys(cmds),
        0 <= i < cmds.len(),
    ensures
        command_value(cmds, cmds[i].0) == Some(cmds[i].1),
    decreases i,
{
    if i > 0 {
        assert(cmds[0].0 != cmds[i].0);
        let rest = cmds.drop_first();
        assert forall|a: int, b: int| 0 <= a < b < rest.len() implies (#[trigger] rest[a]).0
            != (#[trigger] rest[b]).0 by {
            assert(rest[a] == cmds[a + 1] && rest[b] == cmds[b + 1]);
        }
        assert(rest[i - 1] == cmds[i]);
        lemma_command_value_of_entry(rest, i - 1);
    }
}

/// The record after one update at time `now`: drift over the elapsed time,
/// then the emotion suggestion, then `AROUSAL`, then `USER_SIGNAL`.
pub open spec fn updated(
    m: PersonalityStateMatrix,
    cmds: Seq<(Seq<char>, Seq<char>)>,
    emotion: Seq<char>,
    now: i64,
) -> PersonalityStateMatrix {
    let e1 = drifted_energy(
        m.sexual_energy as int,
        m.sexual_drive as int,
        elapsed_secs(m.last_interaction_time, now),
    );
    let e2 = aroused_energy(e1, m.sexual_drive as int, command_value(cmds, "AROUSAL"@));
    let att = attachment_after(
        m.attachment_style,
        m.anxiety_level as int,
        m.avoidance_level as int,
        command_value(cmds, "USER_SIGNAL"@),
    );
    PersonalityStateMatrix {
        sexual_energy: e2 as u32,
        anxiety_level: att.0 as u32,
        avoidance_level: att.1 as u32,
        current_emotional_state: emotion_after(m.current_emotional_state, emotion),
        last_interaction_time: now,
        ..m
    }
}


/// `v` held within `[0, UNIT]`.
fn clamp_unit(v: i128) -> (r: u32)
    ensures
        r == clamp01(v as int),
{
    if v < 0 {
        0
    } else if v > UNIT as i128 {
        UNIT
    } else {
        v as u32
    }
}

/// See `drifted_energy`.
pub fn drift_energy(energy: u32, drive: u32, last: i64, now: i64) -> (r: u32)
    ensures
        r == drifted_energy(energy as int, drive as int, elapsed_secs(last, now)),
{
    let secs: i128 = if now > last { now as i128 - last as i128 } else { 0 };
    let decayed = clamp_unit(energy as i128 - secs * TIME_DECAY_RATE_PER_DAY / SECONDS_PER_DAY);
    let baseline = clamp_unit(drive as i128 * 3 / 10);
    if decayed < baseline {
        clamp_unit(decayed as i128 + secs * TIME_RECHARGE_RATE_PER_DAY / SECONDS_PER_DAY)
    } else {
        decayed
    }
}

/// The characters `s[lo..hi]`.
fn sub_chars(s: &Vec<char>, lo: usize, hi: usize) -> (r: Vec<char>)
    requires
        lo <= hi <= s@.len(),
    ensures
        r@ == s@.subrange(lo as int, hi as int),
{
    let mut r: Vec<char> = Vec::new();
    let mut i: usize = lo;
    while i < hi
        invariant
            lo <= i <= hi <= s@.len(),
            r@ == s@.subrange(lo as int, i as int),
        decreases hi - i,
    {
        r.push(s[i]);
        i += 1;
        assert(r@ =~= s@.subrange(lo as int, i as int));
    }
    r
}

/// See `emotion_for_label`.
pub fn classify_emotion_label(label: &Vec<char>) -> (r: Option<EmotionalState>)
    ensures
        r == emotion_for_label(label@),
{
    if has_folded(label, "happy") {
        Some(EmotionalState::Happy)
    } else if has_folded(label, "content") {
        Some(EmotionalState::Content)
    } else if has_folded(label, "anx") {
        Some(EmotionalState::Anxious)
    } else if has_folded(label, "sad") {
        Some(EmotionalState::Sad)
    } else if has_folded(label, "calm") {
        Some(EmotionalState::Calm)
    } else if has_folded(label, "fluster") {
        Some(EmotionalState::Flustered)
    } else if has_folded(label, "horn") {
        Some(EmotionalState::Horny)
    } else {
        None
    }
}

/// Reads the number in `s` once white space around it is removed.
fn parse_trimmed(s: &Vec<char>, lo: usize) -> (r: Option<(i64, bool)>)
    requires
        lo <= s@.len(),
    ensures
        match decimal_value(trimmed(s@.subrange(lo as int, s@.len() as int))) {
            Some((v, x)) => r matches Some((rv, rx)) && rv == v && rx == x,
            None => r is None,
        },
        r matches Some((v, x)) ==> -1_000_000_000 <= v <= 1_000_000_000,
{
    let rest = sub_chars(s, lo, s.len());
    let (a, b) = trim_bounds(&rest);
    let num = sub_chars(&rest, a, b);
    parse_decimal(&num)
}

/// See `emotion_after`.
pub fn next_emotion(current: EmotionalState, s: &str) -> (r: EmotionalState)
    ensures
        r == emotion_after(current, s@),
{
    let cs = chars_of(s);
    let n = cs.len();
    let mut c: usize = 0;
    while c < n && cs[c] != ':'
        invariant
            c <= n == cs@.len(),
            cs@ == s@,
            forall|j: int| 0 <= j < c ==> #[trigger] cs@[j] != ':',
        decreases n - c,
    {
        c += 1;
    }
    proof {
        crate::text::lemma_first_index(s@, ':', c as int);
    }
    if c == n {
        return current;
    }
    match parse_trimmed(&cs, c + 1) {
        Some((v, dropped)) => {
            if v > EMOTION_THRESHOLD || v < -EMOTION_THRESHOLD || ((v == EMOTION_THRESHOLD || v
                == -EMOTION_THRESHOLD) && dropped) {
                let label = sub_chars(&cs, 0, c);
                match classify_emotion_label(&label) {
                    Some(e) => e,
                    None => current,
                }
            } else {
                current
            }
        },
        None => current,
    }
}

/// The value of the first command named `key`.
pub fn find_command<'a>(cmds: &'a Vec<(String, String)>, key: &str) -> (r: Option<&'a String>)
    ensures
        match r {
            Some(v) => command_value(commands_view(cmds@), key@) == Some(v@),
            None => command_value(commands_view(cmds@), key@) is None,
        },
{
    let mut i: usize = 0;
    assert(commands_view(cmds@).subrange(0, cmds@.len() as int) =~= commands_view(cmds@));
    while i < cmds.len()
        invariant
            i <= cmds@.len(),
            command_value(commands_view(cmds@), key@) == command_value(
                commands_view(cmds@).subrange(i as int, cmds@.len() as int),
                key@,
            ),
        decreases cmds@.len() - i,
    {
        let ghost rest = commands_view(cmds@).subrange(i as int, cmds@.len() as int);
        assert(rest[0] == (cmds@[i as int].0@, cmds@[i as int].1@));
        if str_eq(cmds[i].0.as_str(), key) {
            return Some(&cmds[i].1);
        }
        assert(rest.drop_first() =~= commands_view(cmds@).subrange(i + 1, cmds@.len() as int));
        i += 1;
    }
    None
}

/// See `aroused_energy`.
pub fn arouse(energy: u32, drive: u32, cmd: Option<&String>) -> (r: u32)
    ensures
        r == aroused_energy(energy as int, drive as int, match cmd {
            Some(v) => Some(v@),
            None => None,
        }),
{
    match cmd {
        None => energy,
        Some(v) => {
            let cs = chars_of(v.as_str());
            proof {
                assert(cs@.subrange(0, cs@.len() as int) =~= v@);
            }
            match parse_trimmed(&cs, 0) {
                None => energy,
                Some((c, _)) => {
                    let mult: i128 = (UNIT / 2) as i128 + (drive / 2) as i128;
                    let mag: i128 = if c >= 0 { c as i128 } else { -(c as i128) };
                    assert(0 <= mag * mult <= 1_000_000_000 * 3_000_000_000) by (nonlinear_arith)
                        requires
                            0 <= mult <= 3_000_000_000,
                            0 <= mag <= 1_000_000_000,
                    ;
                    let q: i128 = mag * mult / 1_000_000;
                    let delta: i128 = if c >= 0 { q } else { -q };
                    clamp_unit(energy as i128 + delta)
                },
            }
        },
    }
}

/// See `attachment_after`.
pub fn attachment_step(
    style: AttachmentStyle,
    anxiety: u32,
    avoidance: u32,
    signal: Option<&String>,
) -> (r: (u32, u32))
    ensures
        r.0 as int == attachment_after(style, anxiety as int, avoidance as int, match signal {
            Some(v) => Some(v@),
            None => None,
        }).0,
        r.1 as int == attachment_after(style, anxiety as int, avoidance as int, match signal {
            Some(v) => Some(v@),
            None => None,
        }).1,
{
    let k = ATTACHMENT_SENSITIVITY as i128;
    match signal {
        None => (anxiety, avoidance),
        Some(sig) => match style {
            AttachmentStyle::Anxious => {
                if str_eq(sig.as_str(), "DISTANCE") {
                    (clamp_unit(anxiety as i128 + k), avoidance)
                } else if str_eq(sig.as_str(), "CLOSENESS") {
                    (clamp_unit(anxiety as i128 - k), avoidance)
                } else {
                    (anxiety, avoidance)
                }
            },
            AttachmentStyle::Avoidant => {
                if str_eq(sig.as_str(), "CLOSENESS") {
                    (anxiety, clamp_unit(avoidance as i128 + k))
                } else if str_eq(sig.as_str(), "DISTANCE") {
                    (anxiety, clamp_unit(avoidance as i128 - k))
                } else {
                    (anxiety, avoidance)
                }
            },
            AttachmentStyle::Secure => (
                clamp_unit(anxiety as i128 - k / 4),
                clamp_unit(avoidance as i128 - k / 4),
            ),
            AttachmentStyle::Disorganized => (anxiety, avoidance),
        },
    }
}

/// Every continuous scale stays within `[0, UNIT]` across an update, whatever
/// the commands, the emotion suggestion and the time.
pub proof fn lemma_update_keeps_scales_in_range(
    m: PersonalityStateMatrix,
    cmds: Seq<(Seq<char>, Seq<char>)>,
    emotion: Seq<char>,
    now: i64,
)
    requires
        m.wf(),
    ensures
        updated(m, cmds, emotion, now).wf(),
{
}

/// Reads the current Unix time in seconds.
///
/// Relies on `chrono::Utc::now` and `DateTime::timestamp`: `Utc::now` panics on a
/// system clock before 1970, so the value is not negative.
#[verifier::external_body]
pub(crate) fn unix_now() -> (r: i64)
    ensures
        r >= 0,
{
    chrono::Utc::now().timestamp()
}

/// Applies the language model's suggestions to the personality record.
pub struct PsychologicalEngine;

impl PsychologicalEngine {
    pub fn new() -> (r: Self) {
        PsychologicalEngine
    }

    /// One update at time `now`; malformed suggestions and unknown commands are ignored.
    pub fn apply_update_at(
        &self,
        matrix: &mut PersonalityStateMatrix,
        state_commands: &Vec<(String, String)>,
        emotion_change_str: &str,
        now: i64,
    )
        ensures
            *final(matrix) == updated(
                *old(matrix),
                commands_view(state_commands@),
                emotion_change_str@,
                now,
            ),
            old(matrix).wf() ==> final(matrix).wf(),
    {
        proof {
            if old(matrix).wf() {
                lemma_update_keeps_scales_in_range(
                    *old(matrix),
                    commands_view(state_commands@),
                    emotion_change_str@,
                    now,
                );
            }
        }
        let energy = drift_energy(
            matrix.sexual_energy,
            matrix.sexual_drive,
            matrix.last_interaction_time,
            now,
        );
        matrix.last_interaction_time = now;
        matrix.current_emotional_state = next_emotion(
            matrix.current_emotional_state,
            emotion_change_str,
        );
        let arousal = find_command(state_commands, "AROUSAL");
        matrix.sexual_energy = arouse(energy, matrix.sexual_drive, arousal);
        let signal = find_command(state_commands, "USER_SIGNAL");
        let (anx, avo) = attachment_step(
            matrix.attachment_style,
            matrix.anxiety_level,
            matrix.avoidance_level,
            signal,
        );
        matrix.anxiety_level = anx;
        matrix.avoidance_level = avo;
    }

    /// One update at the current time (see `apply_update_at`).
    pub fn process_llm_state_update(
        &self,
        matrix: &mut PersonalityStateMatrix,
        state_commands: &Vec<(String, String)>,
        emotion_change_str: &str,
    )
        ensures
            exists|now: i64|
                now >= 0 && *final(matrix) == updated(
                    *old(matrix),
                    commands_view(state_commands@),
                    emotion_change_str@,
                    now,
                ),
            old(matrix).wf() ==> final(matrix).wf(),
    {
        let now = unix_now();
        self.apply_update_at(matrix, state_commands, emotion_change_str, now);
    }
}

} // verus!
