//! The values that commands carry: object identifiers, channels, and the
//! small enumerations of the header.

use super::text::{decimal_value, digit36, is_digits, number};
use vstd::prelude::*;

verus! {

/// The number of object identifiers: two base-36 digits.
pub const OBJ_ID_COUNT: u32 = 1296;

/// The value of the identifier written `hi` `lo`, if both are base-36 digits.
pub open spec fn object_value(hi: char, lo: char) -> Option<int> {
    match (digit36(hi), digit36(lo)) {
        (Some(h), Some(l)) => Some(36 * h + l),
        _ => None,
    }
}

/// The character that stands for the base-36 digit `d`, in upper case.
pub open spec fn digit_char(d: int) -> char {
    if d < 10 {
        ('0' as int + d) as char
    } else {
        ('A' as int + d - 10) as char
    }
}

/// The canonical text of the identifier of value `v`: two base-36 digits in
/// upper case.
pub open spec fn canonical(v: int) -> (char, char) {
    (digit_char(v / 36), digit_char(v % 36))
}

/// The upper-case form of an ASCII letter; any other character is itself.
pub open spec fn upper(c: char) -> char {
    if 'a' <= c <= 'z' {
        (c as int - 32) as char
    } else {
        c
    }
}

/// An object identifier: two base-36 digits, `00` to `ZZ`. The value 0,
/// written `00`, stands for an empty slot.
#[derive(Debug, Clone, Copy, PartialEq, Eq, Structural, Hash)]
pub struct ObjId(u16);

impl View for ObjId {
    type V = int;

    closed spec fn view(&self) -> int {
        self.0 as int
    }
}

impl ObjId {
    #[verifier::type_invariant]
    spec fn inv(self) -> bool {
        self.0 < OBJ_ID_COUNT
    }

    /// The identifier of value `v`.
    pub closed spec fn of(v: int) -> ObjId {
        ObjId(v as u16)
    }

    /// An identifier is its value.
    pub proof fn lemma_of(v: int)
        requires
            0 <= v < OBJ_ID_COUNT,
        ensures
            ObjId::of(v)@ == v,
    {
    }

    /// Two identifiers of one value are one identifier.
    pub proof fn lemma_same(self, other: ObjId)
        requires
            self@ == other@,
        ensures
            self == other,
    {
    }

    /// The identifier of an empty slot.
    pub fn null() -> (id: ObjId)
        ensures
            id == ObjId::of(0),
    {
        ObjId(0)
    }

    /// The value of the identifier.
    pub fn value(&self) -> (v: u16)
        ensures
            v == self@,
            v < OBJ_ID_COUNT,
    {
        proof {
            use_type_invariant(self);
        }
        self.0
    }

    /// Whether the identifier stands for an empty slot.
    pub fn is_null(&self) -> (null: bool)
        ensures
            null == (self@ == 0),
    {
        self.0 == 0
    }

    /// The identifier written `hi` `lo`, in either case.
    pub fn from_chars(hi: char, lo: char) -> (id: Option<ObjId>)
        ensures
            match object_value(hi, lo) {
                Some(v) => id == Some(ObjId::of(v)),
                None => id is None,
            },
    {
        match (to_digit36(hi), to_digit36(lo)) {
            (Some(h), Some(l)) => Some(ObjId(36 * h + l)),
            _ => None,
        }
    }

    /// The canonical text of the identifier.
    pub fn to_chars(&self) -> (text: (char, char))
        ensures
            text == canonical(self@),
    {
        proof {
            use_type_invariant(self);
        }
        (to_digit_char(self.0 / 36), to_digit_char(self.0 % 36))
    }
}

/// The error of an integer that is no object identifier.
#[derive(Debug, Clone, Copy, PartialEq, Eq)]
pub struct ObjIdOutOfRange(pub u32);

impl TryFrom<u32> for ObjId {
    type Error = ObjIdOutOfRange;

    fn try_from(value: u32) -> (id: Result<ObjId, ObjIdOutOfRange>)
        ensures
            value < OBJ_ID_COUNT ==> id == Ok::<ObjId, ObjIdOutOfRange>(ObjId::of(value as int)),
            value >= OBJ_ID_COUNT ==> id == Err::<ObjId, ObjIdOutOfRange>(ObjIdOutOfRange(value)),
    {
        if value < OBJ_ID_COUNT {
            Ok(ObjId(value as u16))
        } else {
            Err(ObjIdOutOfRange(value))
        }
    }
}

impl vstd::std_specs::convert::TryFromSpecImpl<u32> for ObjId {
    open spec fn obeys_try_from_spec() -> bool {
        true
    }

    open spec fn try_from_spec(value: u32) -> Result<Self, Self::Error> {
        if value < OBJ_ID_COUNT {
            Ok(ObjId::of(value as int))
        } else {
            Err(ObjIdOutOfRange(value))
        }
    }
}

/// The value of `c` as a base-36 digit.
pub fn to_digit36(c: char) -> (d: Option<u16>)
    ensures
        match digit36(c) {
            Some(v) => d == Some(v as u16) && v < 36,
            None => d is None,
        },
{
    let code = c as u32;
    if '0' <= c && c <= '9' {
        Some((code - 48) as u16)
    } else if 'a' <= c && c <= 'z' {
        Some((code - 97 + 10) as u16)
    } else if 'A' <= c && c <= 'Z' {
        Some((code - 65 + 10) as u16)
    } else {
        None
    }
}

/// The character of the base-36 digit `d`.
pub fn to_digit_char(d: u16) -> (c: char)
    requires
        d < 36,
    ensures
        c == digit_char(d as int),
{
    if d < 10 {
        (48 + d as u8) as char
    } else {
        (55 + d as u8) as char
    }
}

/// Reading an identifier and writing it again gives its text in upper case,
/// and that text reads as the same identifier.
pub proof fn lemma_text_round_trip(hi: char, lo: char)
    requires
        object_value(hi, lo) is Some,
    ensures
        canonical(object_value(hi, lo)->0) == (upper(hi), upper(lo)),
        object_value(upper(hi), upper(lo)) == object_value(hi, lo),
        0 <= object_value(hi, lo)->0 < OBJ_ID_COUNT,
{
}

/// Writing an identifier and reading it again gives the identifier, and
/// writing that gives the same text.
pub proof fn lemma_value_round_trip(v: int)
    requires
        0 <= v < OBJ_ID_COUNT,
    ensures
        object_value(canonical(v).0, canonical(v).1) == Some(v),
        upper(canonical(v).0) == canonical(v).0,
        upper(canonical(v).1) == canonical(v).1,
{
}

/// What kind of note a channel holds.
#[derive(Debug, Clone, Copy, PartialEq, Eq, Structural, Hash)]
pub enum NoteKind {
    /// A note that the player sees and hits.
    Visible,
    /// A note that sounds when hit and is not seen.
    Invisible,
    /// A long note.
    Long,
    /// A mine.
    Landmine,
}

/// The lane of a note.
#[derive(Debug, Clone, Copy, PartialEq, Eq, Structural, Hash)]
pub enum Key {
    Key1,
    Key2,
    Key3,
    Key4,
    Key5,
    Key6,
    Key7,
    Scratch,
    FreeZone,
}

/// What a message holds, as its two channel characters tell.
#[derive(Debug, Clone, Copy, PartialEq, Eq, Structural, Hash)]
pub enum Channel {
    /// `04`: the base layer of the background animation.
    BgaBase,
    /// `07`: the layer above the base layer.
    BgaLayer,
    /// `06`: the layer shown on a miss.
    BgaPoor,
    /// `01`: background sound.
    Bgm,
    /// `03`: a change of tempo, its value written in the slot.
    BpmChangeU8,
    /// `08`: a change of tempo, by the identifier of its definition.
    BpmChange,
    /// `11` to `69` and `D1` to `E9`: a note.
    Note { kind: NoteKind, is_player1: bool, key: Key },
    /// `02`: the length of the track, as a factor.
    SectionLen,
    /// `09`: a stop.
    Stop,
}

impl NoteKind {
    /// The place of the kind in the order of notes.
    pub open spec fn rank(self) -> int {
        match self {
            NoteKind::Visible => 0,
            NoteKind::Invisible => 1,
            NoteKind::Long => 2,
            NoteKind::Landmine => 3,
        }
    }

    /// The place of the kind in the order of notes.
    pub fn to_rank(&self) -> (r: u8)
        ensures
            r == self.rank(),
    {
        match self {
            NoteKind::Visible => 0,
            NoteKind::Invisible => 1,
            NoteKind::Long => 2,
            NoteKind::Landmine => 3,
        }
    }
}

impl Key {
    /// The place of the lane in the order of notes.
    pub open spec fn rank(self) -> int {
        match self {
            Key::Key1 => 0,
            Key::Key2 => 1,
            Key::Key3 => 2,
            Key::Key4 => 3,
            Key::Key5 => 4,
            Key::Key6 => 5,
            Key::Key7 => 6,
            Key::Scratch => 7,
            Key::FreeZone => 8,
        }
    }

    /// The place of the lane in the order of notes.
    pub fn to_rank(&self) -> (r: u8)
        ensures
            r == self.rank(),
    {
        match self {
            Key::Key1 => 0,
            Key::Key2 => 1,
            Key::Key3 => 2,
            Key::Key4 => 3,
            Key::Key5 => 4,
            Key::Key6 => 5,
            Key::Key7 => 6,
            Key::Scratch => 7,
            Key::FreeZone => 8,
        }
    }

    /// The lane that the second channel character of a note names.
    pub open spec fn of(lo: char) -> Option<Key> {
        if lo == '1' {
            Some(Key::Key1)
        } else if lo == '2' {
            Some(Key::Key2)
        } else if lo == '3' {
            Some(Key::Key3)
        } else if lo == '4' {
            Some(Key::Key4)
        } else if lo == '5' {
            Some(Key::Key5)
        } else if lo == '6' {
            Some(Key::Scratch)
        } else if lo == '7' {
            Some(Key::FreeZone)
        } else if lo == '8' {
            Some(Key::Key6)
        } else if lo == '9' {
            Some(Key::Key7)
        } else {
            None
        }
    }

    /// The lane that the second channel character of a note names.
    pub fn from_char(lo: char) -> (key: Option<Key>)
        ensures
            key == Key::of(lo),
    {
        if lo == '1' {
            Some(Key::Key1)
        } else if lo == '2' {
            Some(Key::Key2)
        } else if lo == '3' {
            Some(Key::Key3)
        } else if lo == '4' {
            Some(Key::Key4)
        } else if lo == '5' {
            Some(Key::Key5)
        } else if lo == '6' {
            Some(Key::Scratch)
        } else if lo == '7' {
            Some(Key::FreeZone)
        } else if lo == '8' {
            Some(Key::Key6)
        } else if lo == '9' {
            Some(Key::Key7)
        } else {
            None
        }
    }
}

/// The kind of note and the player that the first channel character of a
/// note names: `1` to `6` and, in either case, `D` and `E`.
pub open spec fn note_side(hi: char) -> Option<(NoteKind, bool)> {
    if hi == '1' {
        Some((NoteKind::Visible, true))
    } else if hi == '2' {
        Some((NoteKind::Visible, false))
    } else if hi == '3' {
        Some((NoteKind::Invisible, true))
    } else if hi == '4' {
        Some((NoteKind::Invisible, false))
    } else if hi == '5' {
        Some((NoteKind::Long, true))
    } else if hi == '6' {
        Some((NoteKind::Long, false))
    } else if hi == 'D' || hi == 'd' {
        Some((NoteKind::Landmine, true))
    } else if hi == 'E' || hi == 'e' {
        Some((NoteKind::Landmine, false))
    } else {
        None
    }
}

/// The kind of note and the player that the first channel character of a
/// note names.
pub fn to_note_side(hi: char) -> (side: Option<(NoteKind, bool)>)
    ensures
        side == note_side(hi),
{
    if hi == '1' {
        Some((NoteKind::Visible, true))
    } else if hi == '2' {
        Some((NoteKind::Visible, false))
    } else if hi == '3' {
        Some((NoteKind::Invisible, true))
    } else if hi == '4' {
        Some((NoteKind::Invisible, false))
    } else if hi == '5' {
        Some((NoteKind::Long, true))
    } else if hi == '6' {
        Some((NoteKind::Long, false))
    } else if hi == 'D' || hi == 'd' {
        Some((NoteKind::Landmine, true))
    } else if hi == 'E' || hi == 'e' {
        Some((NoteKind::Landmine, false))
    } else {
        None
    }
}

impl Channel {
    /// The channel that the characters `hi` `lo` name.
    pub open spec fn of(hi: char, lo: char) -> Option<Channel> {
        if hi == '0' {
            if lo == '1' {
                Some(Channel::Bgm)
            } else if lo == '2' {
                Some(Channel::SectionLen)
            } else if lo == '3' {
                Some(Channel::BpmChangeU8)
            } else if lo == '4' {
                Some(Channel::BgaBase)
            } else if lo == '6' {
                Some(Channel::BgaPoor)
            } else if lo == '7' {
                Some(Channel::BgaLayer)
            } else if lo == '8' {
                Some(Channel::BpmChange)
            } else if lo == '9' {
                Some(Channel::Stop)
            } else {
                None
            }
        } else {
            match (note_side(hi), Key::of(lo)) {
                (Some((kind, is_player1)), Some(key)) => Some(
                    Channel::Note { kind, is_player1, key },
                ),
                _ => None,
            }
        }
    }

    /// The channel that the characters `hi` `lo` name.
    pub fn from_chars(hi: char, lo: char) -> (channel: Option<Channel>)
        ensures
            channel == Channel::of(hi, lo),
    {
        if hi == '0' {
            if lo == '1' {
                Some(Channel::Bgm)
            } else if lo == '2' {
                Some(Channel::SectionLen)
            } else if lo == '3' {
                Some(Channel::BpmChangeU8)
            } else if lo == '4' {
                Some(Channel::BgaBase)
            } else if lo == '6' {
                Some(Channel::BgaPoor)
            } else if lo == '7' {
                Some(Channel::BgaLayer)
            } else if lo == '8' {
                Some(Channel::BpmChange)
            } else if lo == '9' {
                Some(Channel::Stop)
            } else {
                None
            }
        } else {
            match (to_note_side(hi), Key::from_char(lo)) {
                (Some((kind, is_player1)), Some(key)) => Some(
                    Channel::Note { kind, is_player1, key },
                ),
                _ => None,
            }
        }
    }

    /// The place of the channel in the order of objects. The channels that
    /// hold no note come first; notes follow by kind, then the first player
    /// before the second, then by lane.
    pub open spec fn rank(self) -> int {
        match self {
            Channel::Bgm => 0,
            Channel::SectionLen => 1,
            Channel::BpmChangeU8 => 2,
            Channel::BgaBase => 3,
            Channel::BgaPoor => 4,
            Channel::BgaLayer => 5,
            Channel::BpmChange => 6,
            Channel::Stop => 7,
            Channel::Note { kind, is_player1, key } => 8 + 18 * kind.rank() + (if is_player1 {
                0int
            } else {
                9int
            }) + key.rank(),
        }
    }

    /// The place of the channel in the order of objects.
    pub fn to_rank(&self) -> (r: u8)
        ensures
            r == self.rank(),
    {
        match self {
            Channel::Bgm => 0,
            Channel::SectionLen => 1,
            Channel::BpmChangeU8 => 2,
            Channel::BgaBase => 3,
            Channel::BgaPoor => 4,
            Channel::BgaLayer => 5,
            Channel::BpmChange => 6,
            Channel::Stop => 7,
            Channel::Note { kind, is_player1, key } => {
                let side: u8 = if *is_player1 {
                    0
                } else {
                    9
                };
                8 + 18 * kind.to_rank() + side + key.to_rank()
            },
        }
    }

    /// The channel holds values of the timing of the chart, not objects to
    /// show or to play: the tempo written in the slot, and stops.
    pub open spec fn holds_timing(self) -> bool {
        self == Channel::BpmChangeU8 || self == Channel::Stop
    }

    /// Whether the channel holds values of the timing of the chart.
    pub fn is_timing(&self) -> (timing: bool)
        ensures
            timing == self.holds_timing(),
    {
        match self {
            Channel::BpmChangeU8 | Channel::Stop => true,
            _ => false,
        }
    }

    /// The objects of the channel are sounds: notes and background sound.
    pub open spec fn holds_sounds(self) -> bool {
        self is Note || self == Channel::Bgm
    }

    /// Whether the objects of the channel are sounds.
    pub fn is_sound(&self) -> (sound: bool)
        ensures
            sound == self.holds_sounds(),
    {
        match self {
            Channel::Note { .. } | Channel::Bgm => true,
            _ => false,
        }
    }

    /// The objects of the channel are images: the layers of the animation.
    pub open spec fn holds_images(self) -> bool {
        self == Channel::BgaBase || self == Channel::BgaLayer || self == Channel::BgaPoor
    }

    /// Whether the objects of the channel are images.
    pub fn is_image(&self) -> (image: bool)
        ensures
            image == self.holds_images(),
    {
        match self {
            Channel::BgaBase | Channel::BgaLayer | Channel::BgaPoor => true,
            _ => false,
        }
    }

    /// Two channels of one rank are one channel.
    pub proof fn lemma_rank(self, other: Channel)
        requires
            self.rank() == other.rank(),
        ensures
            self == other,
    {
    }
}

/// How many play, and on how many sides.
#[derive(Debug, Clone, Copy, PartialEq, Eq, Structural, Hash)]
pub enum PlayerMode {
    /// `1`: one player.
    Single,
    /// `2`: two players, each on a side.
    Two,
    /// `3`: one player on both sides.
    Double,
    /// `4`: two players on the same notes.
    Battle,
}

impl PlayerMode {
    /// The mode that the argument `n` of `#PLAYER` names.
    pub open spec fn of(n: int) -> Option<PlayerMode> {
        if n == 1 {
            Some(PlayerMode::Single)
        } else if n == 2 {
            Some(PlayerMode::Two)
        } else if n == 3 {
            Some(PlayerMode::Double)
        } else if n == 4 {
            Some(PlayerMode::Battle)
        } else {
            None
        }
    }

    /// The mode that the argument `n` of `#PLAYER` names.
    pub fn from_number(n: u32) -> (mode: Option<PlayerMode>)
        ensures
            mode == PlayerMode::of(n as int),
    {
        if n == 1 {
            Some(PlayerMode::Single)
        } else if n == 2 {
            Some(PlayerMode::Two)
        } else if n == 3 {
            Some(PlayerMode::Double)
        } else if n == 4 {
            Some(PlayerMode::Battle)
        } else {
            None
        }
    }
}

/// How strictly hits are judged.
#[derive(Debug, Clone, Copy, PartialEq, Eq, Structural, Hash)]
pub enum JudgeLevel {
    /// `0`
    VeryHard,
    /// `1`
    Hard,
    /// `2`
    Normal,
    /// `3`
    Easy,
}

impl JudgeLevel {
    /// The level that the argument `n` of `#RANK` names.
    pub open spec fn of(n: int) -> Option<JudgeLevel> {
        if n == 0 {
            Some(JudgeLevel::VeryHard)
        } else if n == 1 {
            Some(JudgeLevel::Hard)
        } else if n == 2 {
            Some(JudgeLevel::Normal)
        } else if n == 3 {
            Some(JudgeLevel::Easy)
        } else {
            None
        }
    }

    /// The level that the argument `n` of `#RANK` names.
    pub fn from_number(n: u32) -> (level: Option<JudgeLevel>)
        ensures
            level == JudgeLevel::of(n as int),
    {
        if n == 0 {
            Some(JudgeLevel::VeryHard)
        } else if n == 1 {
            Some(JudgeLevel::Hard)
        } else if n == 2 {
            Some(JudgeLevel::Normal)
        } else if n == 3 {
            Some(JudgeLevel::Easy)
        } else {
            None
        }
    }
}

/// What the layer shown on a miss does to the animation.
#[derive(Debug, Clone, Copy, PartialEq, Eq, Structural, Hash)]
pub enum PoorMode {
    /// `0`: it takes the place of the animation.
    Interrupt,
    /// `1`: it lies over the animation.
    Overlay,
    /// `2`: it is not shown.
    Hidden,
}

impl PoorMode {
    /// The mode that the argument `n` of `#POORBGA` names.
    pub open spec fn of(n: int) -> Option<PoorMode> {
        if n == 0 {
            Some(PoorMode::Interrupt)
        } else if n == 1 {
            Some(PoorMode::Overlay)
        } else if n == 2 {
            Some(PoorMode::Hidden)
        } else {
            None
        }
    }

    /// The mode that the argument `n` of `#POORBGA` names.
    pub fn from_number(n: u32) -> (mode: Option<PoorMode>)
        ensures
            mode == PoorMode::of(n as int),
    {
        if n == 0 {
            Some(PoorMode::Interrupt)
        } else if n == 1 {
            Some(PoorMode::Overlay)
        } else if n == 2 {
            Some(PoorMode::Hidden)
        } else {
            None
        }
    }
}

impl Default for PoorMode {
    fn default() -> (mode: Self)
        ensures
            mode == PoorMode::Interrupt,
    {
        PoorMode::Interrupt
    }
}

/// The loudness of the sounds, in percent of what is usual.
#[derive(Debug, Clone, Copy, PartialEq, Eq, Structural, Hash)]
pub struct Volume {
    pub relative_percent: u8,
}

impl Default for Volume {
    fn default() -> (volume: Self)
        ensures
            volume == (Volume { relative_percent: 100 }),
    {
        Volume { relative_percent: 100 }
    }
}

/// The number that the decimal digits of `word` write, if `word` is made of
/// decimal digits and the number is a `u32`.
pub fn to_number(word: &Vec<char>) -> (n: Option<u32>)
    ensures
        match number(word@) {
            Some(v) => if v <= u32::MAX {
                n == Some(v as u32)
            } else {
                n is None
            },
            None => n is None,
        },
{
    if word.len() == 0 {
        return None;
    }
    let mut value: u64 = 0;
    let mut i: usize = 0;
    while i < word.len()
        invariant
            i <= word.len(),
            is_digits(word@.take(i as int)) || i == 0,
            value == decimal_value(word@.take(i as int)),
            value <= u32::MAX,
        decreases word.len() - i,
    {
        let c = word[i];
        if !('0' <= c && c <= '9') {
            return None;
        }
        proof {
            assert(word@.take(i + 1).drop_last() =~= word@.take(i as int));
        }
        value = value * 10 + (c as u32 - 48) as u64;
        i = i + 1;
        if value > u32::MAX as u64 {
            proof {
                if is_digits(word@) {
                    super::text::lemma_decimal_value_grows(word@, i as int);
                }
            }
            return None;
        }
    }
    proof {
        assert(word@.take(i as int) =~= word@);
    }
    Some(value as u32)
}

} // verus!
