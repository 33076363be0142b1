//! Tokens: what the commands of a chart say, one token for each command.

use super::command::{
    object_value, to_number, upper, Channel, JudgeLevel, ObjId, PlayerMode, PoorMode, Volume,
};
use super::cursor::Cursor;
use super::text::{
    col_at, content_end, decimal_value, decode, digit36, is_digits, is_separator, lemma_line_end,
    lemma_skip_blanks, lemma_skip_separators, lemma_skip_token, lemma_token_not_empty,
    lemma_trimmed_end, line_at, line_end, number, separator, skip_blanks, skip_separators,
    skip_token, trimmed_end,
};
use super::{LexError, LexErrorKind};
use vstd::prelude::*;

verus! {

/// A token of a chart. Its strings are parts of the text of the chart.
#[derive(Debug, Clone, Copy, PartialEq, Eq)]
pub enum Token<'a> {
    /// `#TITLE`: the title of the chart.
    Title(&'a str),
    /// `#SUBTITLE`: what stands under the title.
    SubTitle(&'a str),
    /// `#ARTIST`: who made the music.
    Artist(&'a str),
    /// `#SUBARTIST`: who else took part.
    SubArtist(&'a str),
    /// `#GENRE`: the genre of the music.
    Genre(&'a str),
    /// `#MAKER`: who made the chart.
    Maker(&'a str),
    /// `#COMMENT`: a line of comment.
    Comment(&'a str),
    /// `#EMAIL`: where to write to the maker.
    Email(&'a str),
    /// `#URL`: where the chart is published.
    Url(&'a str),
    /// `#STAGEFILE`: the image shown while the chart loads.
    StageFile(&'a str),
    /// `#BANNER`: the image shown where charts are chosen.
    Banner(&'a str),
    /// `#BACKBMP`: the image behind the play field.
    BackBmp(&'a str),
    /// `#MIDIFILE`: a MIDI file played in the background.
    MidiFile(&'a str),
    /// `#VIDEOFILE`: a video played in the background.
    VideoFile(&'a str),
    /// `#PATH_WAV`: the directory of the sound files.
    PathWav(&'a str),
    /// `#OPTION`: an option for the player program.
    Option(&'a str),
    /// `#WAVxx`: the sound file of an object.
    Wav(ObjId, &'a str),
    /// `#BMPxx`: the image file of an object.
    Bmp(ObjId, &'a str),
    /// `#TEXTxx`: the text of an object.
    Text(ObjId, &'a str),
    /// `#EXBMPxx`: an image file with a key colour, as written.
    ExBmp(ObjId, &'a str),
    /// `#EXWAVxx`: a sound file with its effects, as written.
    ExWav(ObjId, &'a str),
    /// `#BGAxx`: a part of an image, as written.
    Bga(ObjId, &'a str),
    /// `#@BGAxx`: a part of an image by its size, as written.
    AtBga(ObjId, &'a str),
    /// `#CHANGEOPTIONxx`: an option set while the chart plays.
    ChangeOption(ObjId, &'a str),
    /// `#BPM`: the tempo, as written.
    Bpm(&'a str),
    /// `#TOTAL`: the gauge increase of the whole chart, as written.
    Total(&'a str),
    /// `#BPMxx`: the tempo of an object, as written.
    BpmChange(ObjId, &'a str),
    /// `#PLAYLEVEL`: how hard the chart is, by its maker.
    PlayLevel(u8),
    /// `#DIFFICULTY`: the class of the chart, `1` to `5`.
    Difficulty(u8),
    /// `#RANK`: how strictly hits are judged.
    Rank(JudgeLevel),
    /// `#PLAYER`: how many play.
    Player(PlayerMode),
    /// `#POORBGA`: what the miss layer does.
    PoorBga(PoorMode),
    /// `#VOLWAV`: the loudness of the sounds.
    VolWav(Volume),
    /// `#LNTYPE 1`: long notes are written as pairs.
    LnTypeRdm,
    /// `#LNTYPE 2`: long notes are written as runs.
    LnTypeMgq,
    /// `#RANDOM`: draws a number from 1 to the argument.
    Random(u32),
    /// `#SETRANDOM`: takes the argument as the number drawn.
    SetRandom(u32),
    /// `#IF`: starts a branch for a number drawn.
    If(u32),
    /// `#ELSEIF`: starts the next branch of a chain.
    ElseIf(u32),
    /// `#STOPxx`: the length of a stop.
    Stop(ObjId, u32),
    /// `#EXRANKxx`: a judge level set while the chart plays.
    ExRank(ObjId, JudgeLevel),
    /// `#ELSE`: starts the last branch of a chain.
    Else,
    /// `#ENDIF`: ends a chain of branches.
    EndIf,
    /// `#ENDRANDOM`: ends the block of a number drawn.
    EndRandom,
    /// `#tttcc:`: what the channel `cc` holds in the track `ttt`, slot by slot.
    Message { track: u16, channel: Channel, message: &'a str },
    /// A command that the format does not know, as written.
    Unknown(&'a str),
}

/// A token with the characters of its strings in place of the strings.
pub enum TokenView {
    /// `#TITLE`: the title of the chart.
    Title(Seq<char>),
    /// `#SUBTITLE`: what stands under the title.
    SubTitle(Seq<char>),
    /// `#ARTIST`: who made the music.
    Artist(Seq<char>),
    /// `#SUBARTIST`: who else took part.
    SubArtist(Seq<char>),
    /// `#GENRE`: the genre of the music.
    Genre(Seq<char>),
    /// `#MAKER`: who made the chart.
    Maker(Seq<char>),
    /// `#COMMENT`: a line of comment.
    Comment(Seq<char>),
    /// `#EMAIL`: where to write to the maker.
    Email(Seq<char>),
    /// `#URL`: where the chart is published.
    Url(Seq<char>),
    /// `#STAGEFILE`: the image shown while the chart loads.
    StageFile(Seq<char>),
    /// `#BANNER`: the image shown where charts are chosen.
    Banner(Seq<char>),
    /// `#BACKBMP`: the image behind the play field.
    BackBmp(Seq<char>),
    /// `#MIDIFILE`: a MIDI file played in the background.
    MidiFile(Seq<char>),
    /// `#VIDEOFILE`: a video played in the background.
    VideoFile(Seq<char>),
    /// `#PATH_WAV`: the directory of the sound files.
    PathWav(Seq<char>),
    /// `#OPTION`: an option for the player program.
    Option(Seq<char>),
    /// `#WAVxx`: the sound file of an object.
    Wav(ObjId, Seq<char>),
    /// `#BMPxx`: the image file of an object.
    Bmp(ObjId, Seq<char>),
    /// `#TEXTxx`: the text of an object.
    Text(ObjId, Seq<char>),
    /// `#EXBMPxx`: an image file with a key colour, as written.
    ExBmp(ObjId, Seq<char>),
    /// `#EXWAVxx`: a sound file with its effects, as written.
    ExWav(ObjId, Seq<char>),
    /// `#BGAxx`: a part of an image, as written.
    Bga(ObjId, Seq<char>),
    /// `#@BGAxx`: a part of an image by its size, as written.
    AtBga(ObjId, Seq<char>),
    /// `#CHANGEOPTIONxx`: an option set while the chart plays.
    ChangeOption(ObjId, Seq<char>),
    /// `#BPM`: the tempo, as written.
    Bpm(Seq<char>),
    /// `#TOTAL`: the gauge increase of the whole chart, as written.
    Total(Seq<char>),
    /// `#BPMxx`: the tempo of an object, as written.
    BpmChange(ObjId, Seq<char>),
    /// `#PLAYLEVEL`: how hard the chart is, by its maker.
    PlayLevel(u8),
    /// `#DIFFICULTY`: the class of the chart, `1` to `5`.
    Difficulty(u8),
    /// `#RANK`: how strictly hits are judged.
    Rank(JudgeLevel),
    /// `#PLAYER`: how many play.
    Player(PlayerMode),
    /// `#POORBGA`: what the miss layer does.
    PoorBga(PoorMode),
    /// `#VOLWAV`: the loudness of the sounds.
    VolWav(Volume),
    /// `#LNTYPE 1`: long notes are written as pairs.
    LnTypeRdm,
    /// `#LNTYPE 2`: long notes are written as runs.
    LnTypeMgq,
    /// `#RANDOM`: draws a number from 1 to the argument.
    Random(u32),
    /// `#SETRANDOM`: takes the argument as the number drawn.
    SetRandom(u32),
    /// `#IF`: starts a branch for a number drawn.
    If(u32),
    /// `#ELSEIF`: starts the next branch of a chain.
    ElseIf(u32),
    /// `#STOPxx`: the length of a stop.
    Stop(ObjId, u32),
    /// `#EXRANKxx`: a judge level set while the chart plays.
    ExRank(ObjId, JudgeLevel),
    /// `#ELSE`: starts the last branch of a chain.
    Else,
    /// `#ENDIF`: ends a chain of branches.
    EndIf,
    /// `#ENDRANDOM`: ends the block of a number drawn.
    EndRandom,
    /// `#tttcc:`: what the channel `cc` holds in the track `ttt`, slot by slot.
    Message { track: u16, channel: Channel, message: Seq<char> },
    /// A command that the format does not know, as written.
    Unknown(Seq<char>),
}

impl<'a> View for Token<'a> {
    type V = TokenView;

    open spec fn view(&self) -> TokenView {
        match *self {
            Token::Title(text) => TokenView::Title(text@),
            Token::SubTitle(text) => TokenView::SubTitle(text@),
            Token::Artist(text) => TokenView::Artist(text@),
            Token::SubArtist(text) => TokenView::SubArtist(text@),
            Token::Genre(text) => TokenView::Genre(text@),
            Token::Maker(text) => TokenView::Maker(text@),
            Token::Comment(text) => TokenView::Comment(text@),
            Token::Email(text) => TokenView::Email(text@),
            Token::Url(text) => TokenView::Url(text@),
            Token::StageFile(text) => TokenView::StageFile(text@),
            Token::Banner(text) => TokenView::Banner(text@),
            Token::BackBmp(text) => TokenView::BackBmp(text@),
            Token::MidiFile(text) => TokenView::MidiFile(text@),
            Token::VideoFile(text) => TokenView::VideoFile(text@),
            Token::PathWav(text) => TokenView::PathWav(text@),
            Token::Option(text) => TokenView::Option(text@),
            Token::Wav(id, text) => TokenView::Wav(id, text@),
            Token::Bmp(id, text) => TokenView::Bmp(id, text@),
            Token::Text(id, text) => TokenView::Text(id, text@),
            Token::ExBmp(id, text) => TokenView::ExBmp(id, text@),
            Token::ExWav(id, text) => TokenView::ExWav(id, text@),
            Token::Bga(id, text) => TokenView::Bga(id, text@),
            Token::AtBga(id, text) => TokenView::AtBga(id, text@),
            Token::ChangeOption(id, text) => TokenView::ChangeOption(id, text@),
            Token::Bpm(text) => TokenView::Bpm(text@),
            Token::Total(text) => TokenView::Total(text@),
            Token::BpmChange(id, text) => TokenView::BpmChange(id, text@),
            Token::PlayLevel(n) => TokenView::PlayLevel(n),
            Token::Difficulty(n) => TokenView::Difficulty(n),
            Token::Rank(n) => TokenView::Rank(n),
            Token::Player(n) => TokenView::Player(n),
            Token::PoorBga(n) => TokenView::PoorBga(n),
            Token::VolWav(n) => TokenView::VolWav(n),
            Token::LnTypeRdm => TokenView::LnTypeRdm,
            Token::LnTypeMgq => TokenView::LnTypeMgq,
            Token::Random(n) => TokenView::Random(n),
            Token::SetRandom(n) => TokenView::SetRandom(n),
            Token::If(n) => TokenView::If(n),
            Token::ElseIf(n) => TokenView::ElseIf(n),
            Token::Stop(id, n) => TokenView::Stop(id, n),
            Token::ExRank(id, n) => TokenView::ExRank(id, n),
            Token::Else => TokenView::Else,
            Token::EndIf => TokenView::EndIf,
            Token::EndRandom => TokenView::EndRandom,
            Token::Message { track, channel, message } => TokenView::Message {
                track,
                channel,
                message: message@,
            },
            Token::Unknown(text) => TokenView::Unknown(text@),
        }
    }
}

/// Every character of the slots of a message is a base-36 digit or a
/// separator.
pub open spec fn is_payload(text: Seq<char>) -> bool {
    forall|i: int| 0 <= i < text.len() ==> is_separator(#[trigger] text[i]) || digit36(text[i]) is Some
}

/// A command that takes the rest of its line.
#[derive(Debug, Clone, Copy, PartialEq, Eq, Structural)]
pub enum TextCommand {
    Title,
    SubTitle,
    Artist,
    SubArtist,
    Genre,
    Maker,
    Comment,
    Email,
    Url,
    StageFile,
    Banner,
    BackBmp,
    MidiFile,
    VideoFile,
    PathWav,
    Option,
    Wav,
    Bmp,
    Text,
    ExBmp,
    ExWav,
    Bga,
    AtBga,
    ChangeOption,
}

/// A command that takes the next word.
#[derive(Debug, Clone, Copy, PartialEq, Eq, Structural)]
pub enum WordCommand {
    Bpm,
    Total,
    BpmChange,
}

/// A command that takes a number.
#[derive(Debug, Clone, Copy, PartialEq, Eq, Structural)]
pub enum NumberCommand {
    PlayLevel,
    Difficulty,
    Rank,
    Player,
    PoorBga,
    VolWav,
    LnType,
    Random,
    SetRandom,
    If,
    ElseIf,
    Stop,
    ExRank,
}

/// A command that takes nothing.
#[derive(Debug, Clone, Copy, PartialEq, Eq, Structural)]
pub enum FlagCommand {
    Else,
    EndIf,
    EndRandom,
}

/// What the first word of a command says is to be read.
#[derive(Debug, Clone, Copy, PartialEq, Eq, Structural)]
pub enum Command {
    /// No command: the word does not start with `#`, and its line is skipped.
    Remark,
    /// A message: `#` and a digit start the word.
    Message,
    Text(TextCommand),
    Word(WordCommand),
    Number(NumberCommand),
    Flag(FlagCommand),
    /// A command that the format does not know.
    Unknown,
}

impl TextCommand {
    /// Whether the name of the command ends in an object identifier.
    pub open spec fn indexed(self) -> bool {
        match self {
            TextCommand::Wav | TextCommand::Bmp | TextCommand::Text | TextCommand::ExBmp | TextCommand::ExWav | TextCommand::Bga | TextCommand::AtBga | TextCommand::ChangeOption => true,
            _ => false,
        }
    }

    /// Whether the name of the command ends in an object identifier.
    pub fn is_indexed(&self) -> (indexed: bool)
        ensures
            indexed == self.indexed(),
    {
        match self {
            TextCommand::Wav | TextCommand::Bmp | TextCommand::Text | TextCommand::ExBmp | TextCommand::ExWav | TextCommand::Bga | TextCommand::AtBga | TextCommand::ChangeOption => true,
            _ => false,
        }
    }
}

impl WordCommand {
    /// Whether the name of the command ends in an object identifier.
    pub open spec fn indexed(self) -> bool {
        match self {
            WordCommand::BpmChange => true,
            _ => false,
        }
    }

    /// Whether the name of the command ends in an object identifier.
    pub fn is_indexed(&self) -> (indexed: bool)
        ensures
            indexed == self.indexed(),
    {
        match self {
            WordCommand::BpmChange => true,
            _ => false,
        }
    }
}

impl NumberCommand {
    /// Whether the name of the command ends in an object identifier.
    pub open spec fn indexed(self) -> bool {
        match self {
            NumberCommand::Stop | NumberCommand::ExRank => true,
            _ => false,
        }
    }

    /// Whether the name of the command ends in an object identifier.
    pub fn is_indexed(&self) -> (indexed: bool)
        ensures
            indexed == self.indexed(),
    {
        match self {
            NumberCommand::Stop | NumberCommand::ExRank => true,
            _ => false,
        }
    }
}

/// `a` and `b` are the same but for the case of their ASCII letters.
pub open spec fn same_letters(a: Seq<char>, b: Seq<char>) -> bool {
    a.len() == b.len() && forall|i: int| 0 <= i < a.len() ==> upper(#[trigger] a[i]) == upper(b[i])
}

/// `word` starts with `keyword`, but for the case of ASCII letters.
pub open spec fn starts_with(word: Seq<char>, keyword: Seq<char>) -> bool {
    keyword.len() <= word.len() && same_letters(word.take(keyword.len() as int), keyword)
}

/// `word` is the command `keyword`, in either case.
pub open spec fn names(word: Seq<char>, keyword: Seq<char>) -> bool {
    word.len() == keyword.len() && starts_with(word, keyword)
}

/// `word` is the command `keyword`, in either case, and two more characters.
pub open spec fn names_object(word: Seq<char>, keyword: Seq<char>) -> bool {
    word.len() == keyword.len() + 2 && starts_with(word, keyword)
}

/// What the word `word` says is to be read.
pub open spec fn command_of(word: Seq<char>) -> Command {
    if word.len() == 0 || word[0] != '#' {
        Command::Remark
    } else if word.len() >= 2 && '0' <= word[1] <= '9' {
        Command::Message
    } else if names(word, "#TITLE"@) {
        Command::Text(TextCommand::Title)
    } else if names(word, "#SUBTITLE"@) {
        Command::Text(TextCommand::SubTitle)
    } else if names(word, "#ARTIST"@) {
        Command::Text(TextCommand::Artist)
    } else if names(word, "#SUBARTIST"@) {
        Command::Text(TextCommand::SubArtist)
    } else if names(word, "#GENRE"@) {
        Command::Text(TextCommand::Genre)
    } else if names(word, "#MAKER"@) {
        Command::Text(TextCommand::Maker)
    } else if names(word, "#COMMENT"@) {
        Command::Text(TextCommand::Comment)
    } else if names(word, "#EMAIL"@) {
        Command::Text(TextCommand::Email)
    } else if names(word, "#URL"@) {
        Command::Text(TextCommand::Url)
    } else if names(word, "#STAGEFILE"@) {
        Command::Text(TextCommand::StageFile)
    } else if names(word, "#BANNER"@) {
        Command::Text(TextCommand::Banner)
    } else if names(word, "#BACKBMP"@) {
        Command::Text(TextCommand::BackBmp)
    } else if names(word, "#MIDIFILE"@) {
        Command::Text(TextCommand::MidiFile)
    } else if names(word, "#VIDEOFILE"@) {
        Command::Text(TextCommand::VideoFile)
    } else if names(word, "#PATH_WAV"@) {
        Command::Text(TextCommand::PathWav)
    } else if names(word, "#OPTION"@) {
        Command::Text(TextCommand::Option)
    } else if names_object(word, "#WAV"@) {
        Command::Text(TextCommand::Wav)
    } else if names_object(word, "#BMP"@) {
        Command::Text(TextCommand::Bmp)
    } else if names_object(word, "#TEXT"@) {
        Command::Text(TextCommand::Text)
    } else if names_object(word, "#EXBMP"@) {
        Command::Text(TextCommand::ExBmp)
    } else if names_object(word, "#EXWAV"@) {
        Command::Text(TextCommand::ExWav)
    } else if names_object(word, "#BGA"@) {
        Command::Text(TextCommand::Bga)
    } else if names_object(word, "#@BGA"@) {
        Command::Text(TextCommand::AtBga)
    } else if names_object(word, "#CHANGEOPTION"@) {
        Command::Text(TextCommand::ChangeOption)
    } else if names(word, "#BPM"@) {
        Command::Word(WordCommand::Bpm)
    } else if names(word, "#TOTAL"@) {
        Command::Word(WordCommand::Total)
    } else if names_object(word, "#BPM"@) {
        Command::Word(WordCommand::BpmChange)
    } else if names(word, "#PLAYLEVEL"@) {
        Command::Number(NumberCommand::PlayLevel)
    } else if names(word, "#DIFFICULTY"@) {
        Command::Number(NumberCommand::Difficulty)
    } else if names(word, "#RANK"@) {
        Command::Number(NumberCommand::Rank)
    } else if names(word, "#PLAYER"@) {
        Command::Number(NumberCommand::Player)
    } else if names(word, "#POORBGA"@) {
        Command::Number(NumberCommand::PoorBga)
    } else if names(word, "#VOLWAV"@) {
        Command::Number(NumberCommand::VolWav)
    } else if names(word, "#LNTYPE"@) {
        Command::Number(NumberCommand::LnType)
    } else if names(word, "#RANDOM"@) {
        Command::Number(NumberCommand::Random)
    } else if names(word, "#SETRANDOM"@) {
        Command::Number(NumberCommand::SetRandom)
    } else if names(word, "#IF"@) {
        Command::Number(NumberCommand::If)
    } else if names(word, "#ELSEIF"@) {
        Command::Number(NumberCommand::ElseIf)
    } else if names_object(word, "#STOP"@) {
        Command::Number(NumberCommand::Stop)
    } else if names_object(word, "#EXRANK"@) {
        Command::Number(NumberCommand::ExRank)
    } else if names(word, "#ELSE"@) {
        Command::Flag(FlagCommand::Else)
    } else if names(word, "#ENDIF"@) {
        Command::Flag(FlagCommand::EndIf)
    } else if names(word, "#ENDRANDOM"@) {
        Command::Flag(FlagCommand::EndRandom)
    } else {
        Command::Unknown
    }
}

/// The upper-case form of an ASCII letter; any other character is itself.
pub fn to_upper(c: char) -> (u: char)
    ensures
        u == upper(c),
{
    if 'a' <= c && c <= 'z' {
        (c as u8 - 32) as char
    } else {
        c
    }
}

/// The length of `keyword`, if `word` starts with it.
fn prefix_length(word: &Vec<char>, keyword: &str) -> (length: Option<usize>)
    ensures
        length is Some <==> starts_with(word@, keyword@),
        length matches Some(n) ==> n == keyword@.len(),
{
    let mut n: usize = 0;
    let mut same = true;
    let ghost mut differs: int = 0;
    for c in it: keyword.chars()
        invariant
            it.seq() == keyword@,
            same ==> n == it.index() && n <= word.len() && forall|k: int|
                0 <= k < n ==> upper(#[trigger] word@[k]) == upper(keyword@[k]),
            !same ==> 0 <= differs < keyword@.len() && (differs >= word.len() || upper(
                word@[differs],
            ) != upper(keyword@[differs])),
    {
        if same {
            if n < word.len() && to_upper(word[n]) == to_upper(c) {
                n = n + 1;
            } else {
                same = false;
                proof {
                    differs = n as int;
                }
            }
        }
    }
    if same {
        Some(n)
    } else {
        proof {
            if keyword@.len() <= word@.len() {
                assert(word@.take(keyword@.len() as int)[differs] == word@[differs]);
            }
        }
        None
    }
}

/// Whether `word` is the command `keyword`, in either case.
fn is_command(word: &Vec<char>, keyword: &str) -> (is: bool)
    ensures
        is == names(word@, keyword@),
{
    match prefix_length(word, keyword) {
        Some(n) => n == word.len(),
        None => false,
    }
}

/// Whether `word` is the command `keyword`, in either case, and two more
/// characters.
fn is_object_command(word: &Vec<char>, keyword: &str) -> (is: bool)
    ensures
        is == names_object(word@, keyword@),
{
    match prefix_length(word, keyword) {
        Some(n) => word.len() >= 2 && n == word.len() - 2,
        None => false,
    }
}

/// What the word `word` says is to be read.
pub fn to_command(word: &Vec<char>) -> (command: Command)
    ensures
        command == command_of(word@),
{
    if word.len() == 0 || word[0] != '#' {
        Command::Remark
    } else if word.len() >= 2 && '0' <= word[1] && word[1] <= '9' {
        Command::Message
    } else if is_command(word, "#TITLE") {
        Command::Text(TextCommand::Title)
    } else if is_command(word, "#SUBTITLE") {
        Command::Text(TextCommand::SubTitle)
    } else if is_command(word, "#ARTIST") {
        Command::Text(TextCommand::Artist)
    } else if is_command(word, "#SUBARTIST") {
        Command::Text(TextCommand::SubArtist)
    } else if is_command(word, "#GENRE") {
        Command::Text(TextCommand::Genre)
    } else if is_command(word, "#MAKER") {
        Command::Text(TextCommand::Maker)
    } else if is_command(word, "#COMMENT") {
        Command::Text(TextCommand::Comment)
    } else if is_command(word, "#EMAIL") {
        Command::Text(TextCommand::Email)
    } else if is_command(word, "#URL") {
        Command::Text(TextCommand::Url)
    } else if is_command(word, "#STAGEFILE") {
        Command::Text(TextCommand::StageFile)
    } else if is_command(word, "#BANNER") {
        Command::Text(TextCommand::Banner)
    } else if is_command(word, "#BACKBMP") {
        Command::Text(TextCommand::BackBmp)
    } else if is_command(word, "#MIDIFILE") {
        Command::Text(TextCommand::MidiFile)
    } else if is_command(word, "#VIDEOFILE") {
        Command::Text(TextCommand::VideoFile)
    } else if is_command(word, "#PATH_WAV") {
        Command::Text(TextCommand::PathWav)
    } else if is_command(word, "#OPTION") {
        Command::Text(TextCommand::Option)
    } else if is_object_command(word, "#WAV") {
        Command::Text(TextCommand::Wav)
    } else if is_object_command(word, "#BMP") {
        Command::Text(TextCommand::Bmp)
    } else if is_object_command(word, "#TEXT") {
        Command::Text(TextCommand::Text)
    } else if is_object_command(word, "#EXBMP") {
        Command::Text(TextCommand::ExBmp)
    } else if is_object_command(word, "#EXWAV") {
        Command::Text(TextCommand::ExWav)
    } else if is_object_command(word, "#BGA") {
        Command::Text(TextCommand::Bga)
    } else if is_object_command(word, "#@BGA") {
        Command::Text(TextCommand::AtBga)
    } else if is_object_command(word, "#CHANGEOPTION") {
        Command::Text(TextCommand::ChangeOption)
    } else if is_command(word, "#BPM") {
        Command::Word(WordCommand::Bpm)
    } else if is_command(word, "#TOTAL") {
        Command::Word(WordCommand::Total)
    } else if is_object_command(word, "#BPM") {
        Command::Word(WordCommand::BpmChange)
    } else if is_command(word, "#PLAYLEVEL") {
        Command::Number(NumberCommand::PlayLevel)
    } else if is_command(word, "#DIFFICULTY") {
        Command::Number(NumberCommand::Difficulty)
    } else if is_command(word, "#RANK") {
        Command::Number(NumberCommand::Rank)
    } else if is_command(word, "#PLAYER") {
        Command::Number(NumberCommand::Player)
    } else if is_command(word, "#POORBGA") {
        Command::Number(NumberCommand::PoorBga)
    } else if is_command(word, "#VOLWAV") {
        Command::Number(NumberCommand::VolWav)
    } else if is_command(word, "#LNTYPE") {
        Command::Number(NumberCommand::LnType)
    } else if is_command(word, "#RANDOM") {
        Command::Number(NumberCommand::Random)
    } else if is_command(word, "#SETRANDOM") {
        Command::Number(NumberCommand::SetRandom)
    } else if is_command(word, "#IF") {
        Command::Number(NumberCommand::If)
    } else if is_command(word, "#ELSEIF") {
        Command::Number(NumberCommand::ElseIf)
    } else if is_object_command(word, "#STOP") {
        Command::Number(NumberCommand::Stop)
    } else if is_object_command(word, "#EXRANK") {
        Command::Number(NumberCommand::ExRank)
    } else if is_command(word, "#ELSE") {
        Command::Flag(FlagCommand::Else)
    } else if is_command(word, "#ENDIF") {
        Command::Flag(FlagCommand::EndIf)
    } else if is_command(word, "#ENDRANDOM") {
        Command::Flag(FlagCommand::EndRandom)
    } else {
        Command::Unknown
    }
}

/// The token of a command that took the rest of its line.
pub open spec fn text_token(command: TextCommand, id: ObjId, text: Seq<char>) -> TokenView {
    match command {
        TextCommand::Title => TokenView::Title(text),
        TextCommand::SubTitle => TokenView::SubTitle(text),
        TextCommand::Artist => TokenView::Artist(text),
        TextCommand::SubArtist => TokenView::SubArtist(text),
        TextCommand::Genre => TokenView::Genre(text),
        TextCommand::Maker => TokenView::Maker(text),
        TextCommand::Comment => TokenView::Comment(text),
        TextCommand::Email => TokenView::Email(text),
        TextCommand::Url => TokenView::Url(text),
        TextCommand::StageFile => TokenView::StageFile(text),
        TextCommand::Banner => TokenView::Banner(text),
        TextCommand::BackBmp => TokenView::BackBmp(text),
        TextCommand::MidiFile => TokenView::MidiFile(text),
        TextCommand::VideoFile => TokenView::VideoFile(text),
        TextCommand::PathWav => TokenView::PathWav(text),
        TextCommand::Option => TokenView::Option(text),
        TextCommand::Wav => TokenView::Wav(id, text),
        TextCommand::Bmp => TokenView::Bmp(id, text),
        TextCommand::Text => TokenView::Text(id, text),
        TextCommand::ExBmp => TokenView::ExBmp(id, text),
        TextCommand::ExWav => TokenView::ExWav(id, text),
        TextCommand::Bga => TokenView::Bga(id, text),
        TextCommand::AtBga => TokenView::AtBga(id, text),
        TextCommand::ChangeOption => TokenView::ChangeOption(id, text),
    }
}

/// The token of a command that took a word.
pub open spec fn word_token(command: WordCommand, id: ObjId, text: Seq<char>) -> TokenView {
    match command {
        WordCommand::Bpm => TokenView::Bpm(text),
        WordCommand::Total => TokenView::Total(text),
        WordCommand::BpmChange => TokenView::BpmChange(id, text),
    }
}

/// The token of a command that took the number `n`, if the command takes
/// that number.
pub open spec fn number_token(command: NumberCommand, id: ObjId, n: u32) -> Option<TokenView> {
    match command {
        NumberCommand::PlayLevel => if n <= u8::MAX {
            Some(TokenView::PlayLevel(n as u8))
        } else {
            None
        },
        NumberCommand::Difficulty => if 1 <= n <= 5 {
            Some(TokenView::Difficulty(n as u8))
        } else {
            None
        },
        NumberCommand::Rank => match JudgeLevel::of(n as int) {
            Some(level) => Some(TokenView::Rank(level)),
            None => None,
        },
        NumberCommand::Player => match PlayerMode::of(n as int) {
            Some(mode) => Some(TokenView::Player(mode)),
            None => None,
        },
        NumberCommand::PoorBga => match PoorMode::of(n as int) {
            Some(mode) => Some(TokenView::PoorBga(mode)),
            None => None,
        },
        NumberCommand::VolWav => if n <= u8::MAX {
            Some(TokenView::VolWav(Volume { relative_percent: n as u8 }))
        } else {
            None
        },
        NumberCommand::LnType => if n == 1 {
            Some(TokenView::LnTypeRdm)
        } else if n == 2 {
            Some(TokenView::LnTypeMgq)
        } else {
            None
        },
        NumberCommand::Random => Some(TokenView::Random(n)),
        NumberCommand::SetRandom => Some(TokenView::SetRandom(n)),
        NumberCommand::If => Some(TokenView::If(n)),
        NumberCommand::ElseIf => Some(TokenView::ElseIf(n)),
        NumberCommand::Stop => Some(TokenView::Stop(id, n)),
        NumberCommand::ExRank => match JudgeLevel::of(n as int) {
            Some(level) => Some(TokenView::ExRank(id, level)),
            None => None,
        },
    }
}

/// The token of a command that took nothing.
pub open spec fn flag_token(command: FlagCommand) -> TokenView {
    match command {
        FlagCommand::Else => TokenView::Else,
        FlagCommand::EndIf => TokenView::EndIf,
        FlagCommand::EndRandom => TokenView::EndRandom,
    }
}

impl<'a> Token<'a> {
    /// The token of a command that took the rest of its line.
    pub fn text(command: TextCommand, id: ObjId, text: &'a str) -> (token: Token<'a>)
        ensures
            token@ == text_token(command, id, text@),
    {
        match command {
            TextCommand::Title => Token::Title(text),
            TextCommand::SubTitle => Token::SubTitle(text),
            TextCommand::Artist => Token::Artist(text),
            TextCommand::SubArtist => Token::SubArtist(text),
            TextCommand::Genre => Token::Genre(text),
            TextCommand::Maker => Token::Maker(text),
            TextCommand::Comment => Token::Comment(text),
            TextCommand::Email => Token::Email(text),
            TextCommand::Url => Token::Url(text),
            TextCommand::StageFile => Token::StageFile(text),
            TextCommand::Banner => Token::Banner(text),
            TextCommand::BackBmp => Token::BackBmp(text),
            TextCommand::MidiFile => Token::MidiFile(text),
            TextCommand::VideoFile => Token::VideoFile(text),
            TextCommand::PathWav => Token::PathWav(text),
            TextCommand::Option => Token::Option(text),
            TextCommand::Wav => Token::Wav(id, text),
            TextCommand::Bmp => Token::Bmp(id, text),
            TextCommand::Text => Token::Text(id, text),
            TextCommand::ExBmp => Token::ExBmp(id, text),
            TextCommand::ExWav => Token::ExWav(id, text),
            TextCommand::Bga => Token::Bga(id, text),
            TextCommand::AtBga => Token::AtBga(id, text),
            TextCommand::ChangeOption => Token::ChangeOption(id, text),
        }
    }

    /// The token of a command that took a word.
    pub fn word(command: WordCommand, id: ObjId, text: &'a str) -> (token: Token<'a>)
        ensures
            token@ == word_token(command, id, text@),
    {
        match command {
            WordCommand::Bpm => Token::Bpm(text),
            WordCommand::Total => Token::Total(text),
            WordCommand::BpmChange => Token::BpmChange(id, text),
        }
    }

    /// The token of a command that took the number `n`, if the command takes
    /// that number.
    pub fn number(command: NumberCommand, id: ObjId, n: u32) -> (token: Option<Token<'a>>)
        ensures
            match number_token(command, id, n) {
                Some(view) => token matches Some(t) && t@ == view,
                None => token is None,
            },
    {
        match command {
            NumberCommand::PlayLevel => if n <= 255 {
                Some(Token::PlayLevel(n as u8))
            } else {
                None
            },
            NumberCommand::Difficulty => if 1 <= n && n <= 5 {
                Some(Token::Difficulty(n as u8))
            } else {
                None
            },
            NumberCommand::Rank => match JudgeLevel::from_number(n) {
                Some(level) => Some(Token::Rank(level)),
                None => None,
            },
            NumberCommand::Player => match PlayerMode::from_number(n) {
                Some(mode) => Some(Token::Player(mode)),
                None => None,
            },
            NumberCommand::PoorBga => match PoorMode::from_number(n) {
                Some(mode) => Some(Token::PoorBga(mode)),
                None => None,
            },
            NumberCommand::VolWav => if n <= 255 {
                Some(Token::VolWav(Volume { relative_percent: n as u8 }))
            } else {
                None
            },
            NumberCommand::LnType => if n == 1 {
                Some(Token::LnTypeRdm)
            } else if n == 2 {
                Some(Token::LnTypeMgq)
            } else {
                None
            },
            NumberCommand::Random => Some(Token::Random(n)),
            NumberCommand::SetRandom => Some(Token::SetRandom(n)),
            NumberCommand::If => Some(Token::If(n)),
            NumberCommand::ElseIf => Some(Token::ElseIf(n)),
            NumberCommand::Stop => Some(Token::Stop(id, n)),
            NumberCommand::ExRank => match JudgeLevel::from_number(n) {
                Some(level) => Some(Token::ExRank(id, level)),
                None => None,
            },
        }
    }

    /// The token of a command that took nothing.
    pub fn flag(command: FlagCommand) -> (token: Token<'a>)
        ensures
            token@ == flag_token(command),
    {
        match command {
            FlagCommand::Else => Token::Else,
            FlagCommand::EndIf => Token::EndIf,
            FlagCommand::EndRandom => Token::EndRandom,
        }
    }
}

/// Why the lexer stops, and at which offset of the text.
pub struct Failure {
    pub kind: LexErrorKind,
    pub at: int,
}

/// What reading one command gives: its token, if it makes one, and the
/// offset at which the command ends.
pub struct Reading {
    pub token: Option<TokenView>,
    pub next: int,
}

/// The error `e` tells the failure `f` in the text `s`.
pub open spec fn error_is(e: LexError, f: Failure, s: Seq<char>) -> bool {
    &&& e.kind() == f.kind
    &&& e.message() == f.kind.message()
    &&& e.line() == line_at(s, f.at)
    &&& e.col() == col_at(s, f.at)
}

/// The word that follows offset `from`, and where it ends.
pub open spec fn next_word(s: Seq<char>, from: int) -> Option<(Seq<char>, int)> {
    let start = skip_separators(s, from);
    if start < s.len() {
        Some((s.subrange(start, skip_token(s, start)), skip_token(s, start)))
    } else {
        None
    }
}

/// The rest of the line that holds offset `from`, and where it ends.
pub open spec fn rest_of_line(s: Seq<char>, from: int) -> (Seq<char>, int) {
    let start = skip_blanks(s, from);
    (s.subrange(start, content_end(s, start)), content_end(s, start))
}

/// The rest of the line that holds offset `from` without the separators at
/// its end, and where it ends.
pub open spec fn trimmed_rest_of_line(s: Seq<char>, from: int) -> (Seq<char>, int) {
    let start = skip_blanks(s, from);
    let end = trimmed_end(s, start, line_end(s, start));
    (s.subrange(start, end), end)
}

/// The object identifier that ends the name `word` of an indexed command.
/// A command that is not indexed has the identifier of the empty slot.
pub open spec fn object_of(word: Seq<char>, indexed: bool) -> Option<ObjId> {
    if !indexed {
        Some(ObjId::of(0))
    } else if word.len() < 2 {
        None
    } else {
        match object_value(word[word.len() - 2], word[word.len() - 1]) {
            Some(v) => Some(ObjId::of(v)),
            None => None,
        }
    }
}

/// The token of a command whose argument is `text`, if `text` is a number
/// that the command takes.
pub open spec fn number_argument(command: NumberCommand, id: ObjId, text: Seq<char>) -> Option<
    TokenView,
> {
    match number(text) {
        Some(n) => if n <= u32::MAX {
            number_token(command, id, n as u32)
        } else {
            None
        },
        None => None,
    }
}

/// What reading the message gives whose first word starts at `start`: `#`,
/// three digits for the track, two characters for the channel, a colon, and
/// the rest of the line, which holds the slots or, for the length of a track,
/// a number.
pub open spec fn read_message(s: Seq<char>, start: int) -> Result<Reading, Failure> {
    let end = skip_token(s, start);
    let word = s.subrange(start, end);
    if word.len() < 7 || word[6] != ':' {
        Err(Failure { kind: LexErrorKind::ExpectedToken, at: end })
    } else {
        match number(word.subrange(1, 4)) {
            None => Err(Failure { kind: LexErrorKind::ExpectedInt, at: end }),
            Some(track) => match Channel::of(word[4], word[5]) {
                None => Err(Failure { kind: LexErrorKind::ExpectedChannel, at: end }),
                Some(channel) => {
                    let (message, next) = trimmed_rest_of_line(s, start + 7);
                    if channel == Channel::SectionLen || is_payload(message) {
                        Ok(
                            Reading {
                                token: Some(
                                    TokenView::Message { track: track as u16, channel, message },
                                ),
                                next,
                            },
                        )
                    } else {
                        Err(Failure { kind: LexErrorKind::UnknownObject, at: next })
                    }
                },
            },
        }
    }
}

/// What reading the next command gives from offset `from` on: the command
/// whose first word is the next word, or the failure that there is none.
pub open spec fn read_next(s: Seq<char>, from: int) -> Result<Reading, Failure> {
    if skip_separators(s, from) < s.len() {
        read_command(s, skip_separators(s, from))
    } else {
        Err(Failure { kind: LexErrorKind::ExpectedToken, at: from })
    }
}

/// What reading the command gives whose first word starts at `start`.
pub open spec fn read_command(s: Seq<char>, start: int) -> Result<Reading, Failure> {
    let end = skip_token(s, start);
    let word = s.subrange(start, end);
    match command_of(word) {
        Command::Remark => Ok(Reading { token: None, next: rest_of_line(s, start).1 }),
        Command::Message => read_message(s, start),
        Command::Unknown => Ok(Reading { token: Some(TokenView::Unknown(word)), next: end }),
        Command::Flag(command) => Ok(Reading { token: Some(flag_token(command)), next: end }),
        Command::Text(command) => match object_of(word, command.indexed()) {
            None => Err(Failure { kind: LexErrorKind::UnknownObject, at: end }),
            Some(id) => Ok(
                Reading {
                    token: Some(text_token(command, id, rest_of_line(s, end).0)),
                    next: rest_of_line(s, end).1,
                },
            ),
        },
        Command::Word(command) => match object_of(word, command.indexed()) {
            None => Err(Failure { kind: LexErrorKind::UnknownObject, at: end }),
            Some(id) => match next_word(s, end) {
                None => Err(Failure { kind: LexErrorKind::ExpectedToken, at: end }),
                Some((text, next)) => Ok(
                    Reading { token: Some(word_token(command, id, text)), next },
                ),
            },
        },
        Command::Number(command) => match object_of(word, command.indexed()) {
            None => Err(Failure { kind: LexErrorKind::UnknownObject, at: end }),
            Some(id) => match next_word(s, end) {
                None => Err(Failure { kind: LexErrorKind::ExpectedToken, at: end }),
                Some((text, next)) => match number_argument(command, id, text) {
                    Some(token) => Ok(Reading { token: Some(token), next }),
                    None => Err(Failure { kind: LexErrorKind::ExpectedInt, at: next }),
                },
            },
        },
    }
}

/// The rest of a line ends in the text, at or after the offset it is taken
/// from, and after it if a word starts there.
pub proof fn lemma_rest_of_line(s: Seq<char>, from: int)
    requires
        0 <= from <= s.len(),
    ensures
        from <= skip_blanks(s, from) <= rest_of_line(s, from).1 <= s.len(),
        from < s.len() && !is_separator(s[from]) ==> from < rest_of_line(s, from).1,
{
    lemma_skip_blanks(s, from);
    lemma_line_end(s, skip_blanks(s, from));
}

/// Reading a command moves on in the text, and a failure lies in the text.
pub proof fn lemma_read_command(s: Seq<char>, start: int)
    requires
        0 <= start < s.len(),
        !is_separator(s[start]),
    ensures
        match read_command(s, start) {
            Ok(reading) => start < reading.next <= s.len(),
            Err(failure) => start < failure.at <= s.len(),
        },
{
    let end = skip_token(s, start);
    lemma_skip_token(s, start);
    lemma_skip_token(s, start + 1);
    lemma_rest_of_line(s, start);
    lemma_rest_of_line(s, end);
    lemma_skip_separators(s, end);
    if skip_separators(s, end) < s.len() {
        lemma_token_not_empty(s, end);
    }
    if start + 7 <= s.len() {
        lemma_rest_of_line(s, start + 7);
        let from = skip_blanks(s, start + 7);
        lemma_trimmed_end(s, from, line_end(s, from));
    }
}

/// Three digits write a number under a thousand.
pub proof fn lemma_three_digits(s: Seq<char>)
    requires
        s.len() == 3,
        is_digits(s),
    ensures
        decimal_value(s) <= 999,
{
    let a = s.drop_last();
    let b = a.drop_last();
    assert(b.drop_last().len() == 0);
    assert(decimal_value(b.drop_last()) == 0);
    assert(b.last() == s[0]);
    assert(a.last() == s[1]);
    assert(decimal_value(b) <= 9);
    assert(decimal_value(a) <= 99);
}

/// The error of kind `kind` at the place of the cursor.
fn error(c: &Cursor, kind: LexErrorKind) -> (e: LexError)
    ensures
        e.kind() == kind,
        e.message() == kind.message(),
        e.line() == line_at(c.text(), c.position() as int),
        e.col() == col_at(c.text(), c.position() as int),
{
    let line = c.line();
    let col = c.col();
    let message = kind.to_message();
    match kind {
        LexErrorKind::ExpectedToken => LexError::ExpectedToken { line, col, message },
        LexErrorKind::ExpectedInt => LexError::ExpectedInt { line, col, message },
        LexErrorKind::ExpectedChannel => LexError::ExpectedChannel { line, col, message },
        LexErrorKind::UnknownObject => LexError::UnknownObject { line, col, message },
    }
}

/// The object identifier that ends the name `word` of an indexed command.
fn object(word: &Vec<char>, indexed: bool) -> (id: Option<ObjId>)
    ensures
        id == object_of(word@, indexed),
{
    if !indexed {
        Some(ObjId::null())
    } else if word.len() < 2 {
        None
    } else {
        ObjId::from_chars(word[word.len() - 2], word[word.len() - 1])
    }
}

/// Whether the slots `text` of a message hold nothing but base-36 digits and
/// separators.
fn check_payload(text: &Vec<char>) -> (ok: bool)
    ensures
        ok == is_payload(text@),
{
    let mut i: usize = 0;
    while i < text.len()
        invariant
            i <= text.len(),
            forall|k: int| 0 <= k < i ==> is_separator(#[trigger] text@[k]) || digit36(text@[k]) is Some,
        decreases text.len() - i,
    {
        let c = text[i];
        if !separator(c) && super::command::to_digit36(c).is_none() {
            return false;
        }
        i = i + 1;
    }
    true
}

/// The token that `token` shows, if there is one.
pub open spec fn view_of(token: Option<Token>) -> Option<TokenView> {
    match token {
        Some(t) => Some(t@),
        None => None,
    }
}

impl<'a> Token<'a> {
    /// Reads the message whose first word starts at the cursor and has the
    /// characters `word`.
    fn message(c: &mut Cursor<'a>, word: &Vec<char>) -> (result: Result<Option<Token<'a>>, LexError>)
        requires
            old(c).position() == old(c).token_start(),
            old(c).position() < old(c).text().len(),
            word@ == old(c).token(),
        ensures
            final(c).text() == old(c).text(),
            match read_message(old(c).text(), old(c).position() as int) {
                Ok(reading) => result matches Ok(token) && view_of(token) == reading.token
                    && final(c).position() == reading.next,
                Err(failure) => result matches Err(e) && error_is(e, failure, old(c).text()),
            },
    {
        let ghost s = c.text();
        let ghost start = c.position() as int;
        proof {
            lemma_skip_token(s, start);
        }
        if word.len() < 7 || word[6] != ':' {
            c.next_token();
            return Err(error(c, LexErrorKind::ExpectedToken));
        }
        let mut digits: Vec<char> = Vec::new();
        digits.push(word[1]);
        digits.push(word[2]);
        digits.push(word[3]);
        proof {
            assert(digits@ =~= word@.subrange(1, 4));
            if is_digits(digits@) {
                lemma_three_digits(digits@);
            }
        }
        let track = match to_number(&digits) {
            Some(track) => track,
            None => {
                c.next_token();
                return Err(error(c, LexErrorKind::ExpectedInt));
            },
        };
        let channel = match Channel::from_chars(word[4], word[5]) {
            Some(channel) => channel,
            None => {
                c.next_token();
                return Err(error(c, LexErrorKind::ExpectedChannel));
            },
        };
        c.advance(7);
        let message = c.next_line_trimmed();
        if channel != Channel::SectionLen {
            let slots = decode(message);
            if !check_payload(&slots) {
                return Err(error(c, LexErrorKind::UnknownObject));
            }
        }
        Ok(Some(Token::Message { track: track as u16, channel, message }))
    }

    /// Reads the next command. A line that is no command gives no token;
    /// the end of the text is an error.
    pub fn parse(c: &mut Cursor<'a>) -> (result: Result<Option<Token<'a>>, LexError>)
        ensures
            final(c).text() == old(c).text(),
            match read_next(old(c).text(), old(c).position() as int) {
                Ok(reading) => result matches Ok(token) && view_of(token) == reading.token
                    && final(c).position() == reading.next,
                Err(failure) => result matches Err(e) && error_is(e, failure, old(c).text()),
            },
    {
        let word = match c.peek_token() {
            Some(word) => word,
            None => {
                return Err(error(c, LexErrorKind::ExpectedToken));
            },
        };
        proof {
            lemma_skip_separators(c.text(), c.position() as int);
            lemma_skip_separators(c.text(), c.token_start());
        }
        c.skip_to_token();
        let letters = decode(word);
        match to_command(&letters) {
            Command::Remark => {
                c.next_line_remaining();
                Ok(None)
            },
            Command::Message => Token::message(c, &letters),
            Command::Unknown => {
                c.next_token();
                Ok(Some(Token::Unknown(word)))
            },
            Command::Flag(command) => {
                c.next_token();
                Ok(Some(Token::flag(command)))
            },
            Command::Text(command) => {
                c.next_token();
                match object(&letters, command.is_indexed()) {
                    None => Err(error(c, LexErrorKind::UnknownObject)),
                    Some(id) => {
                        let text = c.next_line_remaining();
                        Ok(Some(Token::text(command, id, text)))
                    },
                }
            },
            Command::Word(command) => {
                c.next_token();
                match object(&letters, command.is_indexed()) {
                    None => Err(error(c, LexErrorKind::UnknownObject)),
                    Some(id) => match c.next_token() {
                        None => Err(error(c, LexErrorKind::ExpectedToken)),
                        Some(text) => Ok(Some(Token::word(command, id, text))),
                    },
                }
            },
            Command::Number(command) => {
                c.next_token();
                match object(&letters, command.is_indexed()) {
                    None => Err(error(c, LexErrorKind::UnknownObject)),
                    Some(id) => match c.next_token() {
                        None => Err(error(c, LexErrorKind::ExpectedToken)),
                        Some(text) => {
                            let digits = decode(text);
                            let token = match to_number(&digits) {
                                Some(n) => Token::number(command, id, n),
                                None => None,
                            };
                            match token {
                                Some(token) => Ok(Some(token)),
                                None => Err(error(c, LexErrorKind::ExpectedInt)),
                            }
                        },
                    },
                }
            },
        }
    }
}

} // verus!
