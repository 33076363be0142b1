use bms_rs::lex::command::{Channel, JudgeLevel, Key, NoteKind, ObjId, PlayerMode, PoorMode, Volume};
use bms_rs::lex::cursor::Cursor;
use bms_rs::lex::token::Token;
use bms_rs::lex::{parse, LexError};

fn id(text: &str) -> ObjId {
    let mut chars = text.chars();
    ObjId::from_chars(chars.next().unwrap(), chars.next().unwrap()).unwrap()
}

fn tokens(source: &str) -> Vec<Token<'_>> {
    let stream = parse(source).expect("the source is a chart");
    (0..stream.len()).map(|i| stream.get(i).unwrap().token).collect()
}

fn places(source: &str) -> Vec<(usize, usize)> {
    let stream = parse(source).expect("the source is a chart");
    (0..stream.len()).map(|i| (stream.get(i).unwrap().line, stream.get(i).unwrap().col)).collect()
}

#[test]
fn header_commands_take_the_rest_of_the_line() {
    assert_eq!(
        tokens("#TITLE 花たちに希望を [SP ANOTHER]\n#ARTIST Sound piercer feat.DAZBEE\n#BPM 187\n"),
        vec![
            Token::Title("花たちに希望を [SP ANOTHER]"),
            Token::Artist("Sound piercer feat.DAZBEE"),
            Token::Bpm("187"),
        ]
    );
}

#[test]
fn every_text_command_has_its_token() {
    assert_eq!(
        tokens(
            "#SUBTITLE a\n#SUBARTIST b\n#GENRE c\n#MAKER d\n#COMMENT e f\n#EMAIL g\n#URL h\n\
             #STAGEFILE i\n#BANNER j\n#BACKBMP k\n#MIDIFILE l\n#VIDEOFILE m\n#PATH_WAV n\n#OPTION o p\n"
        ),
        vec![
            Token::SubTitle("a"),
            Token::SubArtist("b"),
            Token::Genre("c"),
            Token::Maker("d"),
            Token::Comment("e f"),
            Token::Email("g"),
            Token::Url("h"),
            Token::StageFile("i"),
            Token::Banner("j"),
            Token::BackBmp("k"),
            Token::MidiFile("l"),
            Token::VideoFile("m"),
            Token::PathWav("n"),
            Token::Option("o p"),
        ]
    );
}

#[test]
fn commands_are_read_in_either_case() {
    assert_eq!(
        tokens("#title a\n#Wavzz b.wav\n#eNdIf"),
        vec![Token::Title("a"), Token::Wav(id("ZZ"), "b.wav"), Token::EndIf]
    );
}

#[test]
fn number_commands_take_a_number_of_their_range() {
    assert_eq!(
        tokens("#PLAYLEVEL 12 #DIFFICULTY 5 #RANK 0 #PLAYER 3 #POORBGA 2 #VOLWAV 80 #LNTYPE 1 #LNTYPE 2 #TOTAL 250.5"),
        vec![
            Token::PlayLevel(12),
            Token::Difficulty(5),
            Token::Rank(JudgeLevel::VeryHard),
            Token::Player(PlayerMode::Double),
            Token::PoorBga(PoorMode::Hidden),
            Token::VolWav(Volume { relative_percent: 80 }),
            Token::LnTypeRdm,
            Token::LnTypeMgq,
            Token::Total("250.5"),
        ]
    );
    assert_eq!(tokens("#RANK 3 #PLAYER 1 #PLAYER 2 #PLAYER 4 #POORBGA 0 #POORBGA 1"), vec![
        Token::Rank(JudgeLevel::Easy),
        Token::Player(PlayerMode::Single),
        Token::Player(PlayerMode::Two),
        Token::Player(PlayerMode::Battle),
        Token::PoorBga(PoorMode::Interrupt),
        Token::PoorBga(PoorMode::Overlay),
    ]);
}

#[test]
fn indexed_commands_carry_their_object() {
    assert_eq!(
        tokens(
            "#WAV01 a b.wav\n#BMP0z c.bmp\n#BPM02 155.5\n#STOP03 48\n#TEXT04 hello world\n#EXRANK05 2\n\
             #EXBMP06 255,0,0,0 d.bmp\n#EXWAV07 pvf 10000 0 48000 e.wav\n#BGA08 01 0 0 10 10 0 0\n\
             #@BGA09 01 0 0 10 10 0 0\n#CHANGEOPTION0A x"
        ),
        vec![
            Token::Wav(id("01"), "a b.wav"),
            Token::Bmp(id("0Z"), "c.bmp"),
            Token::BpmChange(id("02"), "155.5"),
            Token::Stop(id("03"), 48),
            Token::Text(id("04"), "hello world"),
            Token::ExRank(id("05"), JudgeLevel::Normal),
            Token::ExBmp(id("06"), "255,0,0,0 d.bmp"),
            Token::ExWav(id("07"), "pvf 10000 0 48000 e.wav"),
            Token::Bga(id("08"), "01 0 0 10 10 0 0"),
            Token::AtBga(id("09"), "01 0 0 10 10 0 0"),
            Token::ChangeOption(id("0A"), "x"),
        ]
    );
}

#[test]
fn flow_commands_have_their_tokens() {
    assert_eq!(
        tokens("#RANDOM 3\n#SETRANDOM 2\n#IF 1\n#ELSEIF 2\n#ELSE\n#ENDIF\n#ENDRANDOM"),
        vec![
            Token::Random(3),
            Token::SetRandom(2),
            Token::If(1),
            Token::ElseIf(2),
            Token::Else,
            Token::EndIf,
            Token::EndRandom,
        ]
    );
}

#[test]
fn messages_take_track_channel_and_slots() {
    assert_eq!(
        tokens("#00111:11000000\n#123d9:0a 0B  \r\n#00202:0.75\n#00301: 01"),
        vec![
            Token::Message {
                track: 1,
                channel: Channel::Note { kind: NoteKind::Visible, is_player1: true, key: Key::Key1 },
                message: "11000000",
            },
            Token::Message {
                track: 123,
                channel: Channel::Note { kind: NoteKind::Landmine, is_player1: true, key: Key::Key7 },
                message: "0a 0B",
            },
            Token::Message { track: 2, channel: Channel::SectionLen, message: "0.75" },
            Token::Message { track: 3, channel: Channel::Bgm, message: "01" },
        ]
    );
}

#[test]
fn channels_are_named_by_two_characters() {
    assert_eq!(Channel::from_chars('0', '1'), Some(Channel::Bgm));
    assert_eq!(Channel::from_chars('0', '2'), Some(Channel::SectionLen));
    assert_eq!(Channel::from_chars('0', '3'), Some(Channel::BpmChangeU8));
    assert_eq!(Channel::from_chars('0', '4'), Some(Channel::BgaBase));
    assert_eq!(Channel::from_chars('0', '6'), Some(Channel::BgaPoor));
    assert_eq!(Channel::from_chars('0', '7'), Some(Channel::BgaLayer));
    assert_eq!(Channel::from_chars('0', '8'), Some(Channel::BpmChange));
    assert_eq!(Channel::from_chars('0', '9'), Some(Channel::Stop));
    assert_eq!(Channel::from_chars('0', '5'), None);
    assert_eq!(
        Channel::from_chars('2', '6'),
        Some(Channel::Note { kind: NoteKind::Visible, is_player1: false, key: Key::Scratch })
    );
    assert_eq!(
        Channel::from_chars('3', '8'),
        Some(Channel::Note { kind: NoteKind::Invisible, is_player1: true, key: Key::Key6 })
    );
    assert_eq!(
        Channel::from_chars('6', '7'),
        Some(Channel::Note { kind: NoteKind::Long, is_player1: false, key: Key::FreeZone })
    );
    assert_eq!(
        Channel::from_chars('e', '9'),
        Some(Channel::Note { kind: NoteKind::Landmine, is_player1: false, key: Key::Key7 })
    );
    assert_eq!(Channel::from_chars('1', '0'), None);
    assert_eq!(Channel::from_chars('7', '1'), None);
    assert!(Channel::BpmChangeU8.is_timing() && Channel::Stop.is_timing() && !Channel::BpmChange.is_timing());
    assert!(Channel::Bgm.is_sound() && !Channel::BgaBase.is_sound() && Channel::BgaPoor.is_image());
}

#[test]
fn lines_that_are_no_commands_are_skipped() {
    assert_eq!(
        tokens("a remark #TITLE not a title\n#TITLE x\n*---- section\n\n  more text"),
        vec![Token::Title("x")]
    );
}

#[test]
fn unknown_commands_are_kept_as_written() {
    assert_eq!(
        tokens("#FOO bar\n#WAV0 x\n#TITLE y"),
        vec![Token::Unknown("#FOO"), Token::Unknown("#WAV0"), Token::Title("y")]
    );
}

#[test]
fn tokens_carry_the_place_of_their_first_character() {
    assert_eq!(
        places("\n  #TITLE 花たちに希望を #ARTIST\n#BPM 120   #PLAYER 1\r\n\t#00111:01"),
        vec![(2, 3), (3, 1), (3, 12), (4, 2)]
    );
}

#[test]
fn a_command_is_read_from_where_the_cursor_stands() {
    let mut cursor = Cursor::new("  #TITLE a b \n x\n#ELSE");
    assert_eq!(Token::parse(&mut cursor), Ok(Some(Token::Title("a b "))));
    assert_eq!((cursor.line(), cursor.col()), (1, 14));
    assert_eq!(Token::parse(&mut cursor), Ok(None));
    assert_eq!(Token::parse(&mut cursor), Ok(Some(Token::Else)));
    assert_eq!(
        Token::parse(&mut cursor),
        Err(LexError::ExpectedToken { line: 3, col: 6, message: "the command needs an argument" })
    );
}

#[test]
fn an_empty_text_has_no_tokens() {
    assert_eq!(tokens(""), vec![]);
    assert_eq!(tokens(" \n\t\r\n"), vec![]);
}

#[test]
fn a_missing_argument_is_an_error_at_the_end_of_the_command() {
    assert!(matches!(parse("#TITLE x\n  #BPM  \n").unwrap_err(), LexError::ExpectedToken { line: 2, col: 7, .. }));
    assert!(matches!(parse("#RANDOM").unwrap_err(), LexError::ExpectedToken { line: 1, col: 8, .. }));
    assert!(matches!(parse("#00111").unwrap_err(), LexError::ExpectedToken { line: 1, col: 7, .. }));
    assert!(matches!(parse("#001110011").unwrap_err(), LexError::ExpectedToken { line: 1, col: 11, .. }));
}

#[test]
fn an_argument_out_of_range_is_an_error_at_its_end() {
    assert!(matches!(parse("#DIFFICULTY 6").unwrap_err(), LexError::ExpectedInt { line: 1, col: 14, .. }));
    assert!(matches!(parse("#DIFFICULTY 0").unwrap_err(), LexError::ExpectedInt { .. }));
    assert!(matches!(parse("#PLAYLEVEL 256").unwrap_err(), LexError::ExpectedInt { .. }));
    assert!(matches!(parse("#RANK 4").unwrap_err(), LexError::ExpectedInt { .. }));
    assert!(matches!(parse("#PLAYER 5").unwrap_err(), LexError::ExpectedInt { .. }));
    assert!(matches!(parse("#POORBGA 3").unwrap_err(), LexError::ExpectedInt { .. }));
    assert!(matches!(parse("#LNTYPE 3").unwrap_err(), LexError::ExpectedInt { .. }));
    assert!(matches!(parse("#IF x").unwrap_err(), LexError::ExpectedInt { .. }));
    assert!(matches!(parse("#IF -1").unwrap_err(), LexError::ExpectedInt { .. }));
    assert!(matches!(parse("#RANDOM 4294967296").unwrap_err(), LexError::ExpectedInt { .. }));
    assert!(matches!(parse("#0a111:01").unwrap_err(), LexError::ExpectedInt { line: 1, col: 10, .. }));
    assert_eq!(tokens("#RANDOM 4294967295 #VOLWAV 255 #IF 007"), vec![
        Token::Random(4294967295),
        Token::VolWav(Volume { relative_percent: 255 }),
        Token::If(7),
    ]);
}

#[test]
fn an_unknown_channel_is_an_error() {
    assert!(matches!(parse("#00100:01").unwrap_err(), LexError::ExpectedChannel { line: 1, col: 10, .. }));
    assert!(matches!(parse("#001zz:01").unwrap_err(), LexError::ExpectedChannel { .. }));
}

#[test]
fn a_character_that_is_no_digit_is_an_error() {
    assert!(matches!(parse("#WAV!! x.wav").unwrap_err(), LexError::UnknownObject { line: 1, col: 7, .. }));
    assert!(matches!(parse("#00111:01_1").unwrap_err(), LexError::UnknownObject { line: 1, col: 12, .. }));
    assert!(matches!(parse("#00111:01 .5").unwrap_err(), LexError::UnknownObject { .. }));
}

#[test]
fn object_identifiers_are_two_base_36_digits() {
    assert_eq!(id("00").value(), 0);
    assert!(id("00").is_null());
    assert_eq!(id("01").value(), 1);
    assert_eq!(id("11").value(), 37);
    assert_eq!(id("zz").value(), 1295);
    assert_eq!(id("Zz"), id("ZZ"));
    assert_eq!(ObjId::from_chars('1', '-'), None);
    assert_eq!(ObjId::from_chars('é', '1'), None);
    assert_eq!(ObjId::null().value(), 0);
}

#[test]
fn object_identifiers_are_written_in_upper_case() {
    assert_eq!(id("a9").to_chars(), ('A', '9'));
    assert_eq!(id("00").to_chars(), ('0', '0'));
    assert_eq!(id("zZ").to_chars(), ('Z', 'Z'));
    for value in 0..1296u32 {
        let id = ObjId::try_from(value).unwrap();
        let (hi, lo) = id.to_chars();
        assert_eq!(ObjId::from_chars(hi, lo), Some(id));
        assert_eq!(ObjId::from_chars(hi.to_ascii_lowercase(), lo.to_ascii_lowercase()), Some(id));
        assert_eq!(u32::from(id.value()), value);
    }
}

#[test]
fn integers_from_1296_on_are_no_object_identifiers() {
    assert!(ObjId::try_from(1295u32).is_ok());
    assert_eq!(ObjId::try_from(1296u32).unwrap_err().0, 1296);
    assert!(ObjId::try_from(u32::MAX).is_err());
}
