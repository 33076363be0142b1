//! The header of a chart: its metadata and its tables of definitions.

use super::decimal::{check_positive_number, is_positive_number};
use super::{ParseError, ParseErrorView, WarningKind};
use crate::lex::command::{JudgeLevel, PlayerMode, PoorMode, Volume};
use crate::lex::token::{Token, TokenView};
use std::collections::HashMap;
use vstd::prelude::*;

verus! {

/// How long notes are written.
#[derive(Debug, Clone, Copy, PartialEq, Eq, Structural, Hash)]
pub enum LnType {
    /// A pair of objects: where the note starts and where it ends.
    Rdm,
    /// A run of objects as long as the note.
    Mgq,
}

impl Default for LnType {
    fn default() -> (ln_type: Self)
        ensures
            ln_type == LnType::Rdm,
    {
        Self::Rdm
    }
}

/// The header of a chart. What the chart does not say is `None`, or what is
/// usual.
#[derive(Debug, Clone, PartialEq)]
pub struct Header {
    /// How many play.
    pub player: Option<PlayerMode>,
    /// The genre of the music.
    pub genre: Option<String>,
    /// The title of the chart.
    pub title: Option<String>,
    /// What stands under the title.
    pub subtitle: Option<String>,
    /// Who made the music.
    pub artist: Option<String>,
    /// Who else took part.
    pub sub_artist: Option<String>,
    /// Who made the chart.
    pub maker: Option<String>,
    /// The lines of comment, in the order of the chart.
    pub comment: Option<Vec<String>>,
    /// Where to write to the maker.
    pub email: Option<String>,
    /// Where the chart is published.
    pub url: Option<String>,
    /// The options for the player program, in the order of the chart.
    pub options: Option<Vec<String>>,
    /// The tempo in beats per minute: a decimal number above zero, as written.
    pub bpm: Option<String>,
    /// How hard the chart is, by its maker.
    pub play_level: Option<u8>,
    /// How strictly hits are judged.
    pub rank: Option<JudgeLevel>,
    /// The class of the chart, `1` to `5`.
    pub difficulty: Option<u8>,
    /// The gauge increase of the whole chart: a decimal number above zero, as written.
    pub total: Option<String>,
    /// The loudness of the sounds.
    pub volume: Volume,
    /// How long notes are written.
    pub ln_type: LnType,
    /// What the miss layer does.
    pub poor_bga_mode: PoorMode,
    /// The image behind the play field.
    pub back_bmp: Option<String>,
    /// The image shown while the chart loads.
    pub stage_file: Option<String>,
    /// The image shown where charts are chosen.
    pub banner: Option<String>,
    /// A MIDI file played in the background.
    pub midi_file: Option<String>,
    /// A video played in the background.
    pub video_file: Option<String>,
    /// The directory of the sound files.
    pub wav_path_root: Option<String>,
    /// The sound file of each object, by the value of its identifier.
    pub wav_files: HashMap<u16, String>,
    /// The image file of each object, by the value of its identifier.
    pub bmp_files: HashMap<u16, String>,
    /// The tempo of each object, by the value of its identifier: a decimal number above zero, as written.
    pub bpm_changes: HashMap<u16, String>,
}

/// A header with the characters of its strings in place of the strings.
pub struct HeaderView {
    pub player: Option<PlayerMode>,
    pub genre: Option<Seq<char>>,
    pub title: Option<Seq<char>>,
    pub subtitle: Option<Seq<char>>,
    pub artist: Option<Seq<char>>,
    pub sub_artist: Option<Seq<char>>,
    pub maker: Option<Seq<char>>,
    pub comment: Option<Seq<Seq<char>>>,
    pub email: Option<Seq<char>>,
    pub url: Option<Seq<char>>,
    pub options: Option<Seq<Seq<char>>>,
    pub bpm: Option<Seq<char>>,
    pub play_level: Option<u8>,
    pub rank: Option<JudgeLevel>,
    pub difficulty: Option<u8>,
    pub total: Option<Seq<char>>,
    pub volume: Volume,
    pub ln_type: LnType,
    pub poor_bga_mode: PoorMode,
    pub back_bmp: Option<Seq<char>>,
    pub stage_file: Option<Seq<char>>,
    pub banner: Option<Seq<char>>,
    pub midi_file: Option<Seq<char>>,
    pub video_file: Option<Seq<char>>,
    pub wav_path_root: Option<Seq<char>>,
    pub wav_files: Map<u16, Seq<char>>,
    pub bmp_files: Map<u16, Seq<char>>,
    pub bpm_changes: Map<u16, Seq<char>>,
}

/// The characters of an optional string.
pub open spec fn text_of(text: Option<String>) -> Option<Seq<char>> {
    match text {
        Some(s) => Some(s@),
        None => None,
    }
}

/// The characters of each string of a list.
pub open spec fn texts_of(list: Seq<String>) -> Seq<Seq<char>> {
    Seq::new(list.len(), |i: int| list[i]@)
}

/// The characters of each string of an optional list.
pub open spec fn list_of(list: Option<Vec<String>>) -> Option<Seq<Seq<char>>> {
    match list {
        Some(l) => Some(texts_of(l@)),
        None => None,
    }
}

/// The characters of each string of a table.
pub open spec fn table_of(table: Map<u16, String>) -> Map<u16, Seq<char>> {
    Map::new(|k: u16| table.contains_key(k), |k: u16| table[k]@)
}

impl View for Header {
    type V = HeaderView;

    open spec fn view(&self) -> HeaderView {
        HeaderView {
            player: self.player,
            genre: text_of(self.genre),
            title: text_of(self.title),
            subtitle: text_of(self.subtitle),
            artist: text_of(self.artist),
            sub_artist: text_of(self.sub_artist),
            maker: text_of(self.maker),
            comment: list_of(self.comment),
            email: text_of(self.email),
            url: text_of(self.url),
            options: list_of(self.options),
            bpm: text_of(self.bpm),
            play_level: self.play_level,
            rank: self.rank,
            difficulty: self.difficulty,
            total: text_of(self.total),
            volume: self.volume,
            ln_type: self.ln_type,
            poor_bga_mode: self.poor_bga_mode,
            back_bmp: text_of(self.back_bmp),
            stage_file: text_of(self.stage_file),
            banner: text_of(self.banner),
            midi_file: text_of(self.midi_file),
            video_file: text_of(self.video_file),
            wav_path_root: text_of(self.wav_path_root),
            wav_files: table_of(self.wav_files@),
            bmp_files: table_of(self.bmp_files@),
            bpm_changes: table_of(self.bpm_changes@),
        }
    }
}

impl HeaderView {
    /// The header of a chart that says nothing.
    pub open spec fn empty() -> HeaderView {
        HeaderView {
            player: None,
            genre: None,
            title: None,
            subtitle: None,
            artist: None,
            sub_artist: None,
            maker: None,
            comment: None,
            email: None,
            url: None,
            options: None,
            bpm: None,
            play_level: None,
            rank: None,
            difficulty: None,
            total: None,
            volume: Volume { relative_percent: 100 },
            ln_type: LnType::Rdm,
            poor_bga_mode: PoorMode::Interrupt,
            back_bmp: None,
            stage_file: None,
            banner: None,
            midi_file: None,
            video_file: None,
            wav_path_root: None,
            wav_files: Map::empty(),
            bmp_files: Map::empty(),
            bpm_changes: Map::empty(),
        }
    }

    /// The list `list` with `text` after what it holds.
    pub open spec fn extended(list: Option<Seq<Seq<char>>>, text: Seq<char>) -> Option<
        Seq<Seq<char>>,
    > {
        match list {
            Some(l) => Some(l.push(text)),
            None => Some(seq![text]),
        }
    }

    /// The header after the token `token`, which does not fail. A later
    /// token replaces what an earlier one said; comments and options gather.
    /// A tempo or a total that is no number above zero changes nothing, and
    /// neither does a token that says nothing of the header.
    pub open spec fn apply(self, token: TokenView) -> HeaderView {
        match token {
            TokenView::Artist(text) => HeaderView { artist: Some(text), ..self },
            TokenView::Banner(text) => HeaderView { banner: Some(text), ..self },
            TokenView::BackBmp(text) => HeaderView { back_bmp: Some(text), ..self },
            TokenView::Email(text) => HeaderView { email: Some(text), ..self },
            TokenView::Genre(text) => HeaderView { genre: Some(text), ..self },
            TokenView::Maker(text) => HeaderView { maker: Some(text), ..self },
            TokenView::MidiFile(text) => HeaderView { midi_file: Some(text), ..self },
            TokenView::PathWav(text) => HeaderView { wav_path_root: Some(text), ..self },
            TokenView::StageFile(text) => HeaderView { stage_file: Some(text), ..self },
            TokenView::SubArtist(text) => HeaderView { sub_artist: Some(text), ..self },
            TokenView::SubTitle(text) => HeaderView { subtitle: Some(text), ..self },
            TokenView::Title(text) => HeaderView { title: Some(text), ..self },
            TokenView::Url(text) => HeaderView { url: Some(text), ..self },
            TokenView::VideoFile(text) => HeaderView { video_file: Some(text), ..self },
            TokenView::Bpm(text) => if is_positive_number(text) {
                HeaderView { bpm: Some(text), ..self }
            } else {
                self
            },
            TokenView::Total(text) => if is_positive_number(text) {
                HeaderView { total: Some(text), ..self }
            } else {
                self
            },
            TokenView::Comment(text) => HeaderView { comment: HeaderView::extended(self.comment, text), ..self },
            TokenView::Option(text) => HeaderView { options: HeaderView::extended(self.options, text), ..self },
            TokenView::Difficulty(value) => HeaderView { difficulty: Some(value), ..self },
            TokenView::Player(value) => HeaderView { player: Some(value), ..self },
            TokenView::PlayLevel(value) => HeaderView { play_level: Some(value), ..self },
            TokenView::Rank(value) => HeaderView { rank: Some(value), ..self },
            TokenView::PoorBga(value) => HeaderView { poor_bga_mode: value, ..self },
            TokenView::VolWav(value) => HeaderView { volume: value, ..self },
            TokenView::LnTypeRdm => HeaderView { ln_type: LnType::Rdm, ..self },
            TokenView::LnTypeMgq => HeaderView { ln_type: LnType::Mgq, ..self },
            TokenView::Bmp(id, text) => HeaderView {
                bmp_files: self.bmp_files.insert(id@ as u16, text),
                ..self
            },
            TokenView::Wav(id, text) => HeaderView {
                wav_files: self.wav_files.insert(id@ as u16, text),
                ..self
            },
            TokenView::BpmChange(id, text) => HeaderView {
                bpm_changes: self.bpm_changes.insert(id@ as u16, text),
                ..self
            },
            _ => self,
        }
    }

    /// What is to be said of the token `token`, which does not fail: a
    /// definition that takes the place of another, a tempo or a total that
    /// is no number above zero, or a command that the header does not keep.
    pub open spec fn issue(self, token: TokenView) -> Option<WarningKind> {
        match token {
            TokenView::Bmp(id, _) => if self.bmp_files.contains_key(id@ as u16) {
                Some(WarningKind::Duplicate)
            } else {
                None
            },
            TokenView::Wav(id, _) => if self.wav_files.contains_key(id@ as u16) {
                Some(WarningKind::Duplicate)
            } else {
                None
            },
            TokenView::BpmChange(id, _) => if self.bpm_changes.contains_key(id@ as u16) {
                Some(WarningKind::Duplicate)
            } else {
                None
            },
            TokenView::Bpm(text) | TokenView::Total(text) => if is_positive_number(text) {
                None
            } else {
                Some(WarningKind::InvalidNumber)
            },
            TokenView::AtBga(..)
            | TokenView::Bga(..)
            | TokenView::ChangeOption(..)
            | TokenView::ExBmp(..)
            | TokenView::ExRank(..)
            | TokenView::ExWav(..)
            | TokenView::Stop(..)
            | TokenView::Text(..)
            | TokenView::Unknown(..) => Some(WarningKind::Unsupported),
            _ => None,
        }
    }
}

/// The error with which the token `token` fails: the tempo of an object
/// that is no number above zero.
pub open spec fn failure(token: TokenView) -> Option<ParseErrorView> {
    match token {
        TokenView::BpmChange(_, text) => if is_positive_number(text) {
            None
        } else {
            Some(ParseErrorView::BpmParseError(text))
        },
        _ => None,
    }
}

impl Default for Header {
    fn default() -> (header: Self)
        ensures
            header@ == HeaderView::empty(),
    {
        let header = Header {
            player: None,
            genre: None,
            title: None,
            subtitle: None,
            artist: None,
            sub_artist: None,
            maker: None,
            comment: None,
            email: None,
            url: None,
            options: None,
            bpm: None,
            play_level: None,
            rank: None,
            difficulty: None,
            total: None,
            volume: Volume { relative_percent: 100 },
            ln_type: LnType::Rdm,
            poor_bga_mode: PoorMode::Interrupt,
            back_bmp: None,
            stage_file: None,
            banner: None,
            midi_file: None,
            video_file: None,
            wav_path_root: None,
            wav_files: HashMap::new(),
            bmp_files: HashMap::new(),
            bpm_changes: HashMap::new(),
        };
        proof {
            assert(table_of(header.wav_files@) =~= Map::empty());
            assert(table_of(header.bmp_files@) =~= Map::empty());
            assert(table_of(header.bpm_changes@) =~= Map::empty());
        }
        header
    }
}

/// Puts `text` under `key` in `table` and says whether it took the place of
/// another text.
pub fn define(table: &mut HashMap<u16, String>, key: u16, text: &str) -> (replaced: bool)
    ensures
        replaced == table_of(old(table)@).contains_key(key),
        table_of(final(table)@) == table_of(old(table)@).insert(key, text@),
{
    broadcast use vstd::std_specs::hash::group_hash_axioms;

    let replaced = table.insert(key, text.to_owned()).is_some();
    proof {
        assert(table_of(table@) =~= table_of(old(table)@).insert(key, text@));
    }
    replaced
}

/// Puts `text` after what the list `list` holds.
fn extend(list: &mut Option<Vec<String>>, text: &str)
    ensures
        list_of(*final(list)) == HeaderView::extended(list_of(*old(list)), text@),
{
    let mut texts: Vec<String> = match list.take() {
        Some(texts) => texts,
        None => Vec::new(),
    };
    let ghost before = texts@;
    texts.push(text.to_owned());
    proof {
        assert(texts_of(texts@) =~= texts_of(before).push(text@));
        assert(texts_of(Seq::<String>::empty()).push(text@) =~= seq![text@]);
    }
    *list = Some(texts);
}

impl Header {
    /// Takes in what the token `token` says of the header. The result is
    /// what is to be said of the token, if anything; the tempo of an object
    /// that is no number above zero is an error and leaves the header as it
    /// was.
    pub fn parse(&mut self, token: &Token) -> (result: Result<Option<WarningKind>, ParseError>)
        ensures
            match failure(token@) {
                Some(error) => result matches Err(e) && e@ == error && final(self)@ == old(self)@,
                None => result == Ok::<Option<WarningKind>, ParseError>(
                    old(self)@.issue(token@),
                ) && final(self)@ == old(self)@.apply(token@),
            },
    {
        match *token {
            Token::Artist(text) => {
                self.artist = Some(text.to_owned());
                Ok(None)
            },
            Token::Banner(text) => {
                self.banner = Some(text.to_owned());
                Ok(None)
            },
            Token::BackBmp(text) => {
                self.back_bmp = Some(text.to_owned());
                Ok(None)
            },
            Token::Email(text) => {
                self.email = Some(text.to_owned());
                Ok(None)
            },
            Token::Genre(text) => {
                self.genre = Some(text.to_owned());
                Ok(None)
            },
            Token::Maker(text) => {
                self.maker = Some(text.to_owned());
                Ok(None)
            },
            Token::MidiFile(text) => {
                self.midi_file = Some(text.to_owned());
                Ok(None)
            },
            Token::PathWav(text) => {
                self.wav_path_root = Some(text.to_owned());
                Ok(None)
            },
            Token::StageFile(text) => {
                self.stage_file = Some(text.to_owned());
                Ok(None)
            },
            Token::SubArtist(text) => {
                self.sub_artist = Some(text.to_owned());
                Ok(None)
            },
            Token::SubTitle(text) => {
                self.subtitle = Some(text.to_owned());
                Ok(None)
            },
            Token::Title(text) => {
                self.title = Some(text.to_owned());
                Ok(None)
            },
            Token::Url(text) => {
                self.url = Some(text.to_owned());
                Ok(None)
            },
            Token::VideoFile(text) => {
                self.video_file = Some(text.to_owned());
                Ok(None)
            },
            Token::Bpm(text) => {
                if check_positive_number(text) {
                    self.bpm = Some(text.to_owned());
                    Ok(None)
                } else {
                    Ok(Some(WarningKind::InvalidNumber))
                }
            },
            Token::Total(text) => {
                if check_positive_number(text) {
                    self.total = Some(text.to_owned());
                    Ok(None)
                } else {
                    Ok(Some(WarningKind::InvalidNumber))
                }
            },
            Token::Comment(text) => {
                extend(&mut self.comment, text);
                Ok(None)
            },
            Token::Option(text) => {
                extend(&mut self.options, text);
                Ok(None)
            },
            Token::Difficulty(value) => {
                self.difficulty = Some(value);
                Ok(None)
            },
            Token::Player(value) => {
                self.player = Some(value);
                Ok(None)
            },
            Token::PlayLevel(value) => {
                self.play_level = Some(value);
                Ok(None)
            },
            Token::Rank(value) => {
                self.rank = Some(value);
                Ok(None)
            },
            Token::PoorBga(value) => {
                self.poor_bga_mode = value;
                Ok(None)
            },
            Token::VolWav(value) => {
                self.volume = value;
                Ok(None)
            },
            Token::LnTypeRdm => {
                self.ln_type = LnType::Rdm;
                Ok(None)
            },
            Token::LnTypeMgq => {
                self.ln_type = LnType::Mgq;
                Ok(None)
            },
            Token::Bmp(id, text) => {
                if define(&mut self.bmp_files, id.value(), text) {
                    Ok(Some(WarningKind::Duplicate))
                } else {
                    Ok(None)
                }
            },
            Token::Wav(id, text) => {
                if define(&mut self.wav_files, id.value(), text) {
                    Ok(Some(WarningKind::Duplicate))
                } else {
                    Ok(None)
                }
            },
            Token::BpmChange(id, text) => {
                if !check_positive_number(text) {
                    return Err(ParseError::BpmParseError(text.to_owned()));
                }
                if define(&mut self.bpm_changes, id.value(), text) {
                    Ok(Some(WarningKind::Duplicate))
                } else {
                    Ok(None)
                }
            },
            Token::AtBga(..)
            | Token::Bga(..)
            | Token::ChangeOption(..)
            | Token::ExBmp(..)
            | Token::ExRank(..)
            | Token::ExWav(..)
            | Token::Stop(..)
            | Token::Text(..)
            | Token::Unknown(..) => Ok(Some(WarningKind::Unsupported)),
            _ => Ok(None),
        }
    }
}

} // verus!
