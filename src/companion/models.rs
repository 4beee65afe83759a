//! The companion's personality record and the structured reply of the language model.
use vstd::prelude::*;
use vstd::string::*;
use crate::text::{decimal_of, push_decimal};

verus! {

#[derive(Debug, Clone, Copy, PartialEq, Eq, Structural)]
pub enum AttachmentStyle {
    Secure,
    Anxious,
    Avoidant,
    Disorganized,
}

#[derive(Debug, Clone, Copy, PartialEq, Eq, Structural)]
pub enum LoveLanguage {
    WordsOfAffirmation,
    ActsOfService,
    ReceivingGifts,
    QualityTime,
    PhysicalTouch,
}

#[derive(Debug, Clone, Copy, PartialEq, Eq, Structural)]
pub enum FlirtyStyle {
    Shy,
    Teasing,
    Bold,
    Subtle,
    Seductive,
}

#[derive(Debug, Clone, Copy, PartialEq, Eq, Structural)]
pub enum EmotionalState {
    Happy,
    Content,
    Anxious,
    Horny,
    Sad,
    Calm,
    Flustered,
}

#[derive(Debug, Clone, Copy, PartialEq, Eq, Structural)]
pub enum RelationshipStage {
    Stranger,
    Friend,
    Dating,
    Intimate,
    LongTermPartner,
}

/// One unit of a continuous scale, in millionths: scales run from `0` to `UNIT`.
pub const UNIT: u32 = 1_000_000;

/// The whole psychological state of the companion, from which its system prompt is built.
///
/// The continuous scales are fixed-point numbers in millionths of one unit.
#[derive(Debug, Clone)]
pub struct PersonalityStateMatrix {
    pub name: String,
    pub gender: String,
    pub primary_role: String,
    /// From open-minded (`0`) to conservative (`UNIT`).
    pub conservatism_level: u32,
    /// From low (`0`) to high (`UNIT`).
    pub sexual_drive: u32,
    /// From reserved (`0`) to exploratory (`UNIT`).
    pub intimacy_openness: u32,
    pub attachment_style: AttachmentStyle,
    pub love_language: LoveLanguage,
    pub flirty_style: FlirtyStyle,
    pub current_kinks_list: Vec<String>,
    pub current_boundaries_list: Vec<String>,
    pub current_emotional_state: EmotionalState,
    pub relationship_stage: RelationshipStage,
    pub anxiety_level: u32,
    pub avoidance_level: u32,
    pub sexual_energy: u32,
    /// Unix time, in seconds, of the last interaction.
    pub last_interaction_time: i64,
}

impl PersonalityStateMatrix {
    /// Every continuous scale lies in `[0, UNIT]`.
    pub open spec fn wf(&self) -> bool {
        &&& self.conservatism_level <= UNIT
        &&& self.sexual_drive <= UNIT
        &&& self.intimacy_openness <= UNIT
        &&& self.anxiety_level <= UNIT
        &&& self.avoidance_level <= UNIT
        &&& self.sexual_energy <= UNIT
    }
}

pub open spec fn attachment_name(a: AttachmentStyle) -> Seq<char> {
    match a {
        AttachmentStyle::Secure => "Secure"@,
        AttachmentStyle::Anxious => "Anxious"@,
        AttachmentStyle::Avoidant => "Avoidant"@,
        AttachmentStyle::Disorganized => "Disorganized"@,
    }
}

pub open spec fn love_language_name(l: LoveLanguage) -> Seq<char> {
    match l {
        LoveLanguage::WordsOfAffirmation => "WordsOfAffirmation"@,
        LoveLanguage::ActsOfService => "ActsOfService"@,
        LoveLanguage::ReceivingGifts => "ReceivingGifts"@,
        LoveLanguage::QualityTime => "QualityTime"@,
        LoveLanguage::PhysicalTouch => "PhysicalTouch"@,
    }
}

pub open spec fn emotion_name(e: EmotionalState) -> Seq<char> {
    match e {
        EmotionalState::Happy => "Happy"@,
        EmotionalState::Content => "Content"@,
        EmotionalState::Anxious => "Anxious"@,
        EmotionalState::Horny => "Horny"@,
        EmotionalState::Sad => "Sad"@,
        EmotionalState::Calm => "Calm"@,
        EmotionalState::Flustered => "Flustered"@,
    }
}

pub open spec fn stage_name(r: RelationshipStage) -> Seq<char> {
    match r {
        RelationshipStage::Stranger => "Stranger"@,
        RelationshipStage::Friend => "Friend"@,
        RelationshipStage::Dating => "Dating"@,
        RelationshipStage::Intimate => "Intimate"@,
        RelationshipStage::LongTermPartner => "LongTermPartner"@,
    }
}

/// A scale as a fraction with two decimals, rounded half up. A halfway value
/// such as `65_000` gives `0.07`, where an `f32` near 0.065 printed with `{:.2}`
/// may give `0.06`.
pub open spec fn two_decimals(v: u32) -> Seq<char> {
    let c = (v as nat + 5000) / 10000;
    decimal_of(c / 100) + "."@ + decimal_of((c % 100) / 10) + decimal_of(c % 10)
}

/// `c` as it stands inside a quoted string: quotes, backslashes, newlines,
/// carriage returns and tabs are escaped with a backslash.
pub open spec fn escaped_char(c: char) -> Seq<char> {
    if c == '"' {
        "\\\""@
    } else if c == '\\' {
        "\\\\"@
    } else if c == '\n' {
        "\\n"@
    } else if c == '\r' {
        "\\r"@
    } else if c == '\t' {
        "\\t"@
    } else {
        seq![c]
    }
}

pub open spec fn escaped(s: Seq<char>) -> Seq<char>
    decreases s.len(),
{
    if s.len() == 0 {
        Seq::empty()
    } else {
        escaped(s.drop_last()) + escaped_char(s.last())
    }
}

/// The list as `["a", "b"]`.
pub open spec fn quoted_list(items: Seq<String>) -> Seq<char> {
    "["@ + joined(items) + "]"@
}

pub open spec fn joined(items: Seq<String>) -> Seq<char>
    decreases items.len(),
{
    if items.len() == 0 {
        Seq::empty()
    } else if items.len() == 1 {
        "\""@ + escaped(items[0]@) + "\""@
    } else {
        joined(items.drop_last()) + ", "@ + "\""@ + escaped(items.last()@) + "\""@
    }
}

/// The system prompt that describes `m`.
pub open spec fn system_prompt(m: PersonalityStateMatrix) -> Seq<char> {
    "You are "@ + m.name@ + ". Your current role is "@ + m.primary_role@
        + ". Your personality settings are: Attachment="@ + attachment_name(m.attachment_style)
        + ", Love Language="@ + love_language_name(m.love_language) + ", Conservatism="@
        + two_decimals(m.conservatism_level) + ", Drive="@ + two_decimals(m.sexual_drive)
        + ", Anxiety="@ + two_decimals(m.anxiety_level) + ", Avoidance="@ + two_decimals(
        m.avoidance_level,
    ) + ", SexualEnergy="@ + two_decimals(m.sexual_energy)
        + ". Your current emotional state is "@ + emotion_name(m.current_emotional_state)
        + " in a "@ + stage_name(m.relationship_stage) + " relationship stage. Kinks include: "@
        + quoted_list(m.current_kinks_list@) + "."@
}

fn attachment_str(a: AttachmentStyle) -> (r: &'static str)
    ensures
        r@ == attachment_name(a),
{
    match a {
        AttachmentStyle::Secure => "Secure",
        AttachmentStyle::Anxious => "Anxious",
        AttachmentStyle::Avoidant => "Avoidant",
        AttachmentStyle::Disorganized => "Disorganized",
    }
}

fn love_language_str(l: LoveLanguage) -> (r: &'static str)
    ensures
        r@ == love_language_name(l),
{
    match l {
        LoveLanguage::WordsOfAffirmation => "WordsOfAffirmation",
        LoveLanguage::ActsOfService => "ActsOfService",
        LoveLanguage::ReceivingGifts => "ReceivingGifts",
        LoveLanguage::QualityTime => "QualityTime",
        LoveLanguage::PhysicalTouch => "PhysicalTouch",
    }
}

fn emotion_str(e: EmotionalState) -> (r: &'static str)
    ensures
        r@ == emotion_name(e),
{
    match e {
        EmotionalState::Happy => "Happy",
        EmotionalState::Content => "Content",
        EmotionalState::Anxious => "Anxious",
        EmotionalState::Horny => "Horny",
        EmotionalState::Sad => "Sad",
        EmotionalState::Calm => "Calm",
        EmotionalState::Flustered => "Flustered",
    }
}

fn stage_str(r: RelationshipStage) -> (s: &'static str)
    ensures
        s@ == stage_name(r),
{
    match r {
        RelationshipStage::Stranger => "Stranger",
        RelationshipStage::Friend => "Friend",
        RelationshipStage::Dating => "Dating",
        RelationshipStage::Intimate => "Intimate",
        RelationshipStage::LongTermPartner => "LongTermPartner",
    }
}

/// Appends `two_decimals(v)` to `s`.
fn push_two_decimals(s: &mut String, v: u32)
    ensures
        final(s)@ == old(s)@ + two_decimals(v),
{
    let c: u64 = (v as u64 + 5000) / 10000;
    push_decimal(s, c / 100);
    s.append(".");
    push_decimal(s, (c % 100) / 10);
    push_decimal(s, c % 10);
    assert(s@ =~= old(s)@ + two_decimals(v));
}

/// Appends `escaped(t@)` to `s`.
fn push_escaped(s: &mut String, t: &String)
    ensures
        final(s)@ == old(s)@ + escaped(t@),
{
    let n = t.as_str().unicode_len();
    let mut i: usize = 0;
    assert(t@.subrange(0, 0) =~= Seq::<char>::empty());
    while i < n
        invariant
            n == t@.len(),
            i <= n,
            s@ == old(s)@ + escaped(t@.subrange(0, i as int)),
        decreases n - i,
    {
        let c = t.as_str().get_char(i);
        assert(t@.subrange(0, i + 1).drop_last() =~= t@.subrange(0, i as int));
        if c == '"' {
            s.append("\\\"");
        } else if c == '\\' {
            s.append("\\\\");
        } else if c == '\n' {
            s.append("\\n");
        } else if c == '\r' {
            s.append("\\r");
        } else if c == '\t' {
            s.append("\\t");
        } else {
            let one = t.as_str().substring_char(i, i + 1);
            assert(one@ =~= seq![c]);
            s.append(one);
        }
        i += 1;
        assert(s@ =~= old(s)@ + escaped(t@.subrange(0, i as int)));
    }
    assert(t@.subrange(0, n as int) =~= t@);
}

/// Appends `quoted_list(items@)` to `s`.
fn push_quoted_list(s: &mut String, items: &Vec<String>)
    ensures
        final(s)@ == old(s)@ + quoted_list(items@),
{
    s.append("[");
    let ghost start = s@;
    let mut i: usize = 0;
    while i < items.len()
        invariant
            i <= items@.len(),
            s@ == start + joined(items@.subrange(0, i as int)),
            start == old(s)@ + "["@,
        decreases items@.len() - i,
    {
        let ghost pre = items@.subrange(0, i as int);
        assert(items@.subrange(0, i + 1).drop_last() =~= pre);
        if i > 0 {
            s.append(", ");
        }
        s.append("\"");
        push_escaped(s, &items[i]);
        s.append("\"");
        i += 1;
        assert(s@ =~= start + joined(items@.subrange(0, i as int)));
    }
    assert(items@.subrange(0, items@.len() as int) =~= items@);
    s.append("]");
    assert(s@ =~= old(s)@ + quoted_list(items@));
}

impl PersonalityStateMatrix {
    /// The system prompt that describes this record (see `system_prompt`).
    pub fn to_system_prompt_string(&self) -> (r: String)
        ensures
            r@ == system_prompt(*self),
    {
        let mut s = String::from_str("You are ");
        s.append(self.name.as_str());
        s.append(". Your current role is ");
        s.append(self.primary_role.as_str());
        s.append(". Your personality settings are: Attachment=");
        s.append(attachment_str(self.attachment_style));
        s.append(", Love Language=");
        s.append(love_language_str(self.love_language));
        s.append(", Conservatism=");
        push_two_decimals(&mut s, self.conservatism_level);
        s.append(", Drive=");
        push_two_decimals(&mut s, self.sexual_drive);
        s.append(", Anxiety=");
        push_two_decimals(&mut s, self.anxiety_level);
        s.append(", Avoidance=");
        push_two_decimals(&mut s, self.avoidance_level);
        s.append(", SexualEnergy=");
        push_two_decimals(&mut s, self.sexual_energy);
        s.append(". Your current emotional state is ");
        s.append(emotion_str(self.current_emotional_state));
        s.append(" in a ");
        s.append(stage_str(self.relationship_stage));
        s.append(" relationship stage. Kinks include: ");
        push_quoted_list(&mut s, &self.current_kinks_list);
        s.append(".");
        assert(s@ =~= system_prompt(*self));
        s
    }
}

/// Default value of `anxiety_level` where a stored record lacks it.
pub fn default_anxiety_level() -> (r: u32)
    ensures
        r == 100_000,
{
    100_000
}

/// Default value of `avoidance_level` where a stored record lacks it.
pub fn default_avoidance_level() -> (r: u32)
    ensures
        r == 100_000,
{
    100_000
}

/// Default value of `sexual_energy` where a stored record lacks it.
pub fn default_sexual_energy() -> (r: u32)
    ensures
        r == 500_000,
{
    500_000
}

/// The structured output expected from the language model.
#[derive(Debug, Clone)]
pub struct StructuredLLMOutput {
    /// The reply to the user.
    pub response: String,
    /// For example `"Anxiety: +0.2"`.
    pub suggested_emotion_change: String,
    /// A memory to add to the episodic store, if any.
    pub suggested_memory_add: Option<String>,
    /// State commands as (key, value) pairs with distinct keys,
    /// such as `("AROUSAL", "0.3")` or `("USER_SIGNAL", "CLOSENESS")`.
    pub state_commands: Vec<(String, String)>,
}

impl StructuredLLMOutput {
    /// No two state commands share a key.
    pub open spec fn wf(&self) -> bool {
        crate::companion::psychology::distinct_keys(
            crate::companion::psychology::commands_view(self.state_commands@),
        )
    }
}

} // verus!
