use bms_rs::lex::command::{Channel, JudgeLevel, Key, NoteKind, ObjId, PlayerMode, PoorMode, Volume};
use bms_rs::lex::parse;
use bms_rs::lex::token::Token;
use bms_rs::parse::decimal::check_positive_number;
use bms_rs::parse::header::{Header, LnType};
use bms_rs::parse::notes::decode_slots;
use bms_rs::parse::random::{effective_tokens, RandomParser, Verdict};
use bms_rs::parse::ratio::{gcd_of, lcm_of};
use bms_rs::parse::rng::Rng;
use bms_rs::parse::{Bms, Obj, ParseError, RngMock, Warning, WarningKind};

fn chart(source: &str) -> Bms {
    let stream = parse(source).expect("the source is a chart");
    Bms::from_token_stream(&stream, RngMock([1])).expect("the chart is assembled")
}

fn warnings(source: &str) -> Vec<Warning> {
    let stream = parse(source).expect("the source is a chart");
    Bms::from_token_stream_with_warnings(&stream, RngMock([1])).expect("the chart is assembled").1
}

fn failure(source: &str) -> ParseError {
    let stream = parse(source).expect("the source is a chart");
    Bms::from_token_stream(&stream, RngMock([1])).unwrap_err()
}

fn note(track: u16, numerator: u32, denominator: u32, key: Key, obj: u32) -> Obj {
    Obj {
        track,
        time_numerator_in_track: numerator,
        time_denominator_in_track: denominator,
        channel: Channel::Note { kind: NoteKind::Visible, is_player1: true, key },
        obj: ObjId::try_from(obj).unwrap(),
    }
}

fn object(track: u16, numerator: u32, denominator: u32, channel: Channel, obj: u32) -> Obj {
    Obj {
        track,
        time_numerator_in_track: numerator,
        time_denominator_in_track: denominator,
        channel,
        obj: ObjId::try_from(obj).unwrap(),
    }
}

#[test]
fn header_basics() {
    let bms = chart(
        "#TITLE 花たちに希望を [SP ANOTHER]\n#ARTIST Sound piercer feat.DAZBEE\n#BPM 187\n",
    );
    assert_eq!(bms.header.title, Some("花たちに希望を [SP ANOTHER]".to_string()));
    assert_eq!(bms.header.artist, Some("Sound piercer feat.DAZBEE".to_string()));
    assert_eq!(bms.header.bpm.map(|bpm| bpm.parse::<f64>().unwrap()), Some(187.0));
    assert!(bms.sorted_notes.is_empty());
}

#[test]
fn simple_notes() {
    let bms = chart("#00111:11000000");
    assert_eq!(bms.sorted_notes, vec![note(1, 1, 4, Key::Key1, 37)]);
    assert!(bms.sorted_timing.is_empty());
}

#[test]
fn overlapping_messages_merge_at_the_common_resolution() {
    let bms = chart("#00111:01000200\n#00111:0000000003000004");
    assert_eq!(
        bms.sorted_notes,
        vec![
            note(1, 2, 8, Key::Key1, 1),
            note(1, 5, 8, Key::Key1, 3),
            note(1, 6, 8, Key::Key1, 2),
            note(1, 8, 8, Key::Key1, 4),
        ]
    );
}

#[test]
fn messages_of_lengths_without_common_factor_meet_at_their_product() {
    let bms = chart("#00111:010203\n#00111:0405");
    assert_eq!(
        bms.sorted_notes,
        vec![
            note(1, 2, 6, Key::Key1, 1),
            note(1, 3, 6, Key::Key1, 4),
            note(1, 4, 6, Key::Key1, 2),
            note(1, 6, 6, Key::Key1, 5),
        ]
    );
}

#[test]
fn the_later_message_wins_a_place() {
    let source = "#00111:0102\n#00111:00030000\n#00111:0400";
    assert_eq!(
        chart(source).sorted_notes,
        vec![note(1, 2, 4, Key::Key1, 4), note(1, 4, 4, Key::Key1, 2)]
    );
    assert_eq!(
        warnings(source),
        vec![
            Warning { kind: WarningKind::Conflict, token: 0 },
            Warning { kind: WarningKind::Conflict, token: 1 },
            Warning { kind: WarningKind::Undefined, token: 0 },
            Warning { kind: WarningKind::Undefined, token: 0 },
            Warning { kind: WarningKind::Undefined, token: 1 },
            Warning { kind: WarningKind::Undefined, token: 2 },
        ]
    );
}

#[test]
fn the_same_object_twice_at_a_place_is_no_conflict() {
    let source = "#WAV01 a.wav\n#00111:01\n#00111:0001";
    assert_eq!(chart(source).sorted_notes, vec![note(1, 2, 2, Key::Key1, 1)]);
    assert_eq!(warnings(source), vec![]);
}

#[test]
fn notes_stand_in_the_order_of_objects() {
    let bms = chart(
        "#00211:01\n#00121:0002\n#00116:0003\n#00111:0004\n#00131:0005\n#00151:0006\n#001D1:0007\n\
         #00111:0800\n#00111:000900\n#00101:000A\n#00112:0001\n#00118:000B\n#00104:000C",
    );
    let visible_two = Channel::Note { kind: NoteKind::Visible, is_player1: false, key: Key::Key1 };
    let invisible = Channel::Note { kind: NoteKind::Invisible, is_player1: true, key: Key::Key1 };
    let long = Channel::Note { kind: NoteKind::Long, is_player1: true, key: Key::Key1 };
    let mine = Channel::Note { kind: NoteKind::Landmine, is_player1: true, key: Key::Key1 };
    assert_eq!(
        bms.sorted_notes,
        vec![
            note(1, 3, 6, Key::Key1, 8),
            note(1, 4, 6, Key::Key1, 9),
            object(1, 2, 2, Channel::Bgm, 10),
            object(1, 2, 2, Channel::BgaBase, 12),
            note(1, 6, 6, Key::Key1, 4),
            note(1, 2, 2, Key::Key2, 1),
            note(1, 2, 2, Key::Key6, 11),
            note(1, 2, 2, Key::Scratch, 3),
            object(1, 2, 2, visible_two, 2),
            object(1, 2, 2, invisible, 5),
            object(1, 2, 2, long, 6),
            object(1, 2, 2, mine, 7),
            note(2, 1, 1, Key::Key1, 1),
        ]
    );
}

#[test]
fn notes_lie_in_their_tracks_and_no_two_compare_equal() {
    let bms = chart(
        "#00311:0102030405\n#00311:00ZZ00\n#00111:010203040506070809\n#00111:0A0B0C0D\n#00212:11\n\
         #00111:00000G\n#00316:0000000000000001",
    );
    for o in &bms.sorted_notes {
        assert!(1 <= o.time_numerator_in_track);
        assert!(o.time_numerator_in_track <= o.time_denominator_in_track);
    }
    for pair in bms.sorted_notes.windows(2) {
        assert!(pair[0].is_before(&pair[1]));
        assert!(!pair[1].is_before(&pair[0]));
    }
    assert_eq!(bms.sorted_notes.len(), 6 + 12 + 1 + 1);
}

#[test]
fn values_of_the_timing_stand_apart_from_the_notes() {
    let bms = chart("#00103:0078\n#00109:01\n#00108:02\n#00111:03");
    assert_eq!(
        bms.sorted_timing,
        vec![
            object(1, 2, 2, Channel::BpmChangeU8, 7 * 36 + 8),
            object(1, 1, 1, Channel::Stop, 1),
        ]
    );
    assert_eq!(
        bms.sorted_notes,
        vec![object(1, 1, 1, Channel::BpmChange, 2), note(1, 1, 1, Key::Key1, 3)]
    );
}

#[test]
fn lengths_of_tracks_are_kept_by_track() {
    let source = "#00102:0.75\n#00502: +1.5  \n#00102:0.5\n#00202:0\n#00302:1e\n#00402:";
    let bms = chart(source);
    assert_eq!(bms.section_lengths.len(), 2);
    assert_eq!(bms.section_lengths[&1], "0.5");
    assert_eq!(bms.section_lengths[&5], "+1.5");
    assert_eq!(bms.section_lengths[&1].parse::<f64>().unwrap(), 0.5);
    assert!(bms.sorted_notes.is_empty());
    assert_eq!(
        warnings(source),
        vec![
            Warning { kind: WarningKind::Duplicate, token: 2 },
            Warning { kind: WarningKind::InvalidNumber, token: 3 },
            Warning { kind: WarningKind::InvalidNumber, token: 4 },
            Warning { kind: WarningKind::InvalidNumber, token: 5 },
        ]
    );
}

#[test]
fn slots_are_read_without_their_separators() {
    assert_eq!(
        chart("#00111: 01 00\t02 00 ").sorted_notes,
        vec![note(1, 1, 4, Key::Key1, 1), note(1, 3, 4, Key::Key1, 2)]
    );
    assert_eq!(chart("#00111:").sorted_notes, vec![]);
    assert_eq!(chart("#00111:0000").sorted_notes, vec![]);
}

#[test]
fn a_character_left_over_is_an_invalid_object_count() {
    assert_eq!(failure("#00111:010"), ParseError::InvalidObjectCount);
    assert_eq!(failure("#TITLE x\n#00111:0 1 0\n#BPM01 x"), ParseError::InvalidObjectCount);
}

#[test]
fn the_tempo_of_an_object_must_be_a_number_above_zero() {
    assert_eq!(failure("#BPM01 abc"), ParseError::BpmParseError("abc".to_string()));
    assert_eq!(failure("#BPM01 0"), ParseError::BpmParseError("0".to_string()));
    assert_eq!(failure("#BPM01 -120"), ParseError::BpmParseError("-120".to_string()));
    assert_eq!(failure("#BPM01 0.0"), ParseError::BpmParseError("0.0".to_string()));
    assert_eq!(failure("#BPM01 1.2.3"), ParseError::BpmParseError("1.2.3".to_string()));
    assert_eq!(failure("#BPM01 inf"), ParseError::BpmParseError("inf".to_string()));
    assert_eq!(failure("#BPM01 ."), ParseError::BpmParseError(".".to_string()));
    let bms = chart("#BPM01 120\n#BPM02 0.5\n#BPMzz +.25\n#BPM03 007.");
    assert_eq!(bms.header.bpm_changes[&1], "120");
    assert_eq!(bms.header.bpm_changes[&2], "0.5");
    assert_eq!(bms.header.bpm_changes[&1295], "+.25");
    assert_eq!(bms.header.bpm_changes[&3].parse::<f64>().unwrap(), 7.0);
}

#[test]
fn messages_without_a_common_resolution_are_out_of_bounds() {
    let first = "01".repeat(65537);
    let second = "01".repeat(65539);
    let source = format!("#00111:{first}\n#00111:{second}");
    assert_eq!(failure(&source), ParseError::OutOfBoundsChannel);
    let other_channel = format!("#00111:{first}\n#00112:{second}");
    assert_eq!(chart(&other_channel).sorted_notes.len(), 65537 + 65539);
}

#[test]
fn the_header_takes_the_last_of_each_field() {
    let bms = chart(
        "#TITLE a\n#TITLE b\n#SUBTITLE c\n#SUBARTIST d\n#GENRE e\n#MAKER f\n#EMAIL g\n#URL h\n\
         #PLAYER 1\n#PLAYER 3\n#PLAYLEVEL 7\n#RANK 2\n#DIFFICULTY 4\n#TOTAL 300\n#VOLWAV 90\n\
         #LNTYPE 2\n#POORBGA 1\n#BACKBMP i\n#STAGEFILE j\n#BANNER k\n#MIDIFILE l\n#VIDEOFILE m\n\
         #PATH_WAV n\n#COMMENT one\n#COMMENT two\n#OPTION x\n#OPTION y\n#BPM 120\n#BPM 150.5",
    );
    let header = bms.header;
    assert_eq!(header.title.as_deref(), Some("b"));
    assert_eq!(header.subtitle.as_deref(), Some("c"));
    assert_eq!(header.sub_artist.as_deref(), Some("d"));
    assert_eq!(header.genre.as_deref(), Some("e"));
    assert_eq!(header.maker.as_deref(), Some("f"));
    assert_eq!(header.email.as_deref(), Some("g"));
    assert_eq!(header.url.as_deref(), Some("h"));
    assert_eq!(header.player, Some(PlayerMode::Double));
    assert_eq!(header.play_level, Some(7));
    assert_eq!(header.rank, Some(JudgeLevel::Normal));
    assert_eq!(header.difficulty, Some(4));
    assert_eq!(header.total.as_deref(), Some("300"));
    assert_eq!(header.volume, Volume { relative_percent: 90 });
    assert_eq!(header.ln_type, LnType::Mgq);
    assert_eq!(header.poor_bga_mode, PoorMode::Overlay);
    assert_eq!(header.back_bmp.as_deref(), Some("i"));
    assert_eq!(header.stage_file.as_deref(), Some("j"));
    assert_eq!(header.banner.as_deref(), Some("k"));
    assert_eq!(header.midi_file.as_deref(), Some("l"));
    assert_eq!(header.video_file.as_deref(), Some("m"));
    assert_eq!(header.wav_path_root.as_deref(), Some("n"));
    assert_eq!(header.comment, Some(vec!["one".to_string(), "two".to_string()]));
    assert_eq!(header.options, Some(vec!["x".to_string(), "y".to_string()]));
    assert_eq!(header.bpm.as_deref(), Some("150.5"));
    assert_eq!(header.artist, None);
}

#[test]
fn a_header_that_says_nothing_is_the_default() {
    let header = Header::default();
    assert_eq!(chart("").header, header);
    assert_eq!(header.title, None);
    assert_eq!(header.comment, None);
    assert_eq!(header.volume, Volume { relative_percent: 100 });
    assert_eq!(header.volume, Volume::default());
    assert_eq!(header.ln_type, LnType::Rdm);
    assert_eq!(LnType::default(), LnType::Rdm);
    assert_eq!(header.poor_bga_mode, PoorMode::Interrupt);
    assert_eq!(PoorMode::default(), PoorMode::Interrupt);
    assert!(header.wav_files.is_empty() && header.bmp_files.is_empty() && header.bpm_changes.is_empty());
}

#[test]
fn a_tempo_that_is_no_number_above_zero_is_left_out() {
    let source = "#BPM 120\n#BPM zero\n#BPM 0\n#BPM -3\n#TOTAL 0.0\n#TOTAL nan";
    let bms = chart(source);
    assert_eq!(bms.header.bpm.as_deref(), Some("120"));
    assert_eq!(bms.header.total, None);
    assert_eq!(
        warnings(source),
        (1..6).map(|token| Warning { kind: WarningKind::InvalidNumber, token }).collect::<Vec<_>>()
    );
}

#[test]
fn a_definition_takes_the_place_of_an_earlier_one() {
    let source = "#WAV01 a.wav\n#WAV01 b.wav\n#BMP01 a.bmp\n#BMP01 b.bmp\n#BPM01 100\n#BPM01 200\n#WAV02 c.wav";
    let bms = chart(source);
    assert_eq!(bms.header.wav_files.len(), 2);
    assert_eq!(bms.header.wav_files[&1], "b.wav");
    assert_eq!(bms.header.wav_files[&2], "c.wav");
    assert_eq!(bms.header.bmp_files[&1], "b.bmp");
    assert_eq!(bms.header.bpm_changes[&1], "200");
    assert_eq!(
        warnings(source),
        vec![
            Warning { kind: WarningKind::Duplicate, token: 1 },
            Warning { kind: WarningKind::Duplicate, token: 3 },
            Warning { kind: WarningKind::Duplicate, token: 5 },
        ]
    );
}

#[test]
fn commands_that_the_chart_does_not_keep_are_told() {
    let source = "#BGA01 02 0 0 1 1 0 0\n#@BGA01 02 0 0 1 1 0 0\n#EXBMP01 0,0,0,0 a.bmp\n#EXWAV01 p 1 a.wav\n\
                  #EXRANK01 2\n#TEXT01 hi\n#CHANGEOPTION01 x\n#STOP01 48\n#NOTHING\n#TITLE t";
    assert_eq!(chart(source).header.title.as_deref(), Some("t"));
    assert_eq!(
        warnings(source),
        (0..9).map(|token| Warning { kind: WarningKind::Unsupported, token }).collect::<Vec<_>>()
    );
}

#[test]
fn objects_without_definition_are_told() {
    let source = "#WAV01 a.wav\n#BMP02 b.bmp\n#BPM05 90\n#00111:0102\n#00104:0201\n#00101:03\n#00108:0405\n\
                  #00106:02\n#00109:06";
    assert_eq!(
        warnings(source),
        vec![
            Warning { kind: WarningKind::Undefined, token: 3 },
            Warning { kind: WarningKind::Undefined, token: 4 },
            Warning { kind: WarningKind::Undefined, token: 5 },
            Warning { kind: WarningKind::Undefined, token: 6 },
        ]
    );
}

#[test]
fn markers_where_nothing_is_open_do_nothing() {
    let source = "#ENDIF\n#ELSE\n#ELSEIF 1\n#ENDRANDOM\n#00111:01\n#RANDOM 1\n#ELSE\n#ENDRANDOM\n#ENDRANDOM";
    assert_eq!(chart(source).sorted_notes, vec![note(1, 1, 1, Key::Key1, 1)]);
    assert_eq!(
        warnings(source),
        vec![
            Warning { kind: WarningKind::UnmatchedIf, token: 0 },
            Warning { kind: WarningKind::UnmatchedIf, token: 1 },
            Warning { kind: WarningKind::UnmatchedIf, token: 2 },
            Warning { kind: WarningKind::UnmatchedRandom, token: 3 },
            Warning { kind: WarningKind::UnmatchedIf, token: 6 },
            Warning { kind: WarningKind::UnmatchedRandom, token: 8 },
            Warning { kind: WarningKind::Undefined, token: 4 },
        ]
    );
}

#[test]
fn outside_every_block_the_number_is_one() {
    let source = "#IF 1\n#00111:01\n#ELSE\n#00111:02\n#ENDIF\n#IF 2\n#00112:03\n#ELSEIF 1\n#00112:04\n#ELSE\n#00112:05\n#ENDIF";
    assert_eq!(
        chart(source).sorted_notes,
        vec![note(1, 1, 1, Key::Key1, 1), note(1, 1, 1, Key::Key2, 4)]
    );
}

#[test]
fn the_first_branch_that_fits_is_kept() {
    let source = "#SETRANDOM 2\n#IF 1\n#TITLE a\n#ELSEIF 2\n#TITLE b\n#ELSEIF 2\n#TITLE c\n#ELSE\n#TITLE d\n#ENDIF\n\
                  #IF 3\n#ARTIST a\n#ELSE\n#ARTIST b\n#ENDIF\n#GENRE between\n#ENDRANDOM";
    let header = chart(source).header;
    assert_eq!(header.title.as_deref(), Some("b"));
    assert_eq!(header.artist.as_deref(), Some("b"));
    assert_eq!(header.genre.as_deref(), Some("between"));
}

#[test]
fn blocks_in_branches_that_are_not_kept_draw_no_number() {
    let source = "#RANDOM 2\n#IF 2\n#RANDOM 5\n#IF 1\n#TITLE a\n#ENDIF\n#ENDRANDOM\n#ENDIF\n#ENDRANDOM\n\
                  #RANDOM 9\n#IF 7\n#TITLE b\n#ENDIF\n#ENDRANDOM";
    let stream = parse(source).unwrap();
    let bms = Bms::from_token_stream(&stream, RngMock([1, 7])).unwrap();
    assert_eq!(bms.header.title.as_deref(), Some("b"));
    let bms = Bms::from_token_stream(&stream, RngMock([2, 1, 7])).unwrap();
    assert_eq!(bms.header.title.as_deref(), Some("b"));
    let bms = Bms::from_token_stream(&stream, RngMock([2, 3, 7])).unwrap();
    assert_eq!(bms.header.title.as_deref(), Some("b"));
    let bms = Bms::from_token_stream(&stream, RngMock([2, 1, 6])).unwrap();
    assert_eq!(bms.header.title.as_deref(), Some("a"));
}

#[test]
fn a_chart_depends_only_on_the_numbers_it_draws() {
    let source = "#RANDOM 2\n#IF 1\n#00111:01\n#ENDIF\n#IF 2\n#00111:02\n#ENDIF\n#ENDRANDOM";
    let stream = parse(source).unwrap();
    let one = Bms::from_token_stream(&stream, RngMock([2])).unwrap();
    let other = Bms::from_token_stream(&stream, RngMock([2, 1, 1, 3])).unwrap();
    assert_eq!(one, other);
    assert_eq!(one, Bms::from_token_stream(&stream, RngMock([2])).unwrap());
    assert_ne!(one, Bms::from_token_stream(&stream, RngMock([1, 2])).unwrap());
}

#[test]
fn a_branch_that_is_not_kept_can_be_left_out() {
    let full = "#00111:01\n#RANDOM 2\n#IF 1\n#00112:02\n#RANDOM 3\n#IF 1\n#TITLE x\n#ENDIF\n#ENDRANDOM\n\
                #ENDIF\n#IF 2\n#00113:03\n#ENDIF\n#ENDRANDOM";
    let elided = "#00111:01\n#RANDOM 2\n#IF 1\n\
                #ENDIF\n#IF 2\n#00113:03\n#ENDIF\n#ENDRANDOM";
    let full = parse(full).unwrap();
    let elided = parse(elided).unwrap();
    assert_eq!(
        Bms::from_token_stream(&full, RngMock([2, 1])).unwrap(),
        Bms::from_token_stream(&elided, RngMock([2, 1])).unwrap()
    );
}

#[test]
fn the_mock_gives_its_numbers_in_turn() {
    let mut rng = RngMock([3, 1, 4]);
    let drawn: Vec<u32> = (0..7).map(|_| rng.gen(9)).collect();
    assert_eq!(drawn, vec![3, 1, 4, 3, 1, 4, 3]);
    let mut single = RngMock([5]);
    assert_eq!((single.gen(1), single.gen(2)), (5, 5));
}

#[test]
fn the_tokens_that_are_kept_make_the_chart() {
    let source = "#TITLE a\n#RANDOM 2\n#IF 1\n#TITLE b\n#RANDOM 9\n#ENDRANDOM\n#ELSE\n#00111:01\n#ENDIF\n#ARTIST c\n\
                  #ENDRANDOM\n#ENDIF\n#GENRE d";
    let stream = parse(source).unwrap();
    assert_eq!(
        effective_tokens(&stream, RngMock([2])),
        vec![
            Token::Title("a"),
            Token::Message {
                track: 1,
                channel: Channel::Note { kind: NoteKind::Visible, is_player1: true, key: Key::Key1 },
                message: "01",
            },
            Token::Artist("c"),
            Token::Genre("d"),
        ]
    );
    assert_eq!(
        effective_tokens(&stream, RngMock([1])),
        vec![Token::Title("a"), Token::Title("b"), Token::Artist("c"), Token::Genre("d")]
    );
}

#[test]
fn the_interpreter_says_what_becomes_of_each_token() {
    let mut parser = RandomParser::new(RngMock([3]));
    let verdicts: Vec<Verdict> = [
        Token::Title("a"),
        Token::EndIf,
        Token::Random(5),
        Token::Title("between"),
        Token::If(2),
        Token::Title("b"),
        Token::ElseIf(3),
        Token::Title("c"),
        Token::ElseIf(3),
        Token::Title("d"),
        Token::Else,
        Token::Title("e"),
        Token::EndIf,
        Token::Else,
        Token::EndRandom,
        Token::EndRandom,
    ]
    .iter()
    .map(|token| parser.parse(token))
    .collect();
    assert_eq!(
        verdicts,
        vec![
            Verdict::Kept,
            Verdict::Stray,
            Verdict::Marker,
            Verdict::Kept,
            Verdict::Marker,
            Verdict::Skipped,
            Verdict::Marker,
            Verdict::Kept,
            Verdict::Marker,
            Verdict::Skipped,
            Verdict::Marker,
            Verdict::Skipped,
            Verdict::Marker,
            Verdict::Stray,
            Verdict::Marker,
            Verdict::Stray,
        ]
    );
}

#[test]
fn least_common_multiples_are_products_over_greatest_common_divisors() {
    assert_eq!(gcd_of(12, 18), 6);
    assert_eq!(gcd_of(7, 0), 7);
    assert_eq!(gcd_of(0, 7), 7);
    assert_eq!(lcm_of(4, 8), Some(8));
    assert_eq!(lcm_of(4, 6), Some(12));
    assert_eq!(lcm_of(1, 1), Some(1));
    assert_eq!(lcm_of(65536, 65537), None);
    assert_eq!(lcm_of(u32::MAX, u32::MAX), Some(u32::MAX));
    assert_eq!(lcm_of(0, 5), Some(0));
    assert_eq!(lcm_of(5, 0), Some(0));
}

#[test]
fn numbers_above_zero_are_digits_with_at_most_one_point() {
    for text in ["1", "187", "0.5", ".5", "5.", "+12.25", "000.001", "10"] {
        assert!(check_positive_number(text), "{text}");
        assert!(text.parse::<f64>().unwrap() > 0.0, "{text}");
    }
    for text in ["", "+", ".", "0", "0.0", "-1", "1.2.3", "１", "12 ", "inf", "NaN", "++1", "1+"] {
        assert!(!check_positive_number(text), "{text}");
    }
}

#[test]
fn numbers_may_have_a_power_of_ten() {
    for text in ["1e3", "1.5E-2", "+2e+10", ".5e0", "5.e007"] {
        assert!(check_positive_number(text), "{text}");
        assert!(text.parse::<f64>().unwrap() > 0.0, "{text}");
    }
    for text in ["1e", "e5", "1e5.5", "1e+", "1e-", "0e5", "0.0e1", "1ee3", "1e3e4", "1e 3", "1e+-3", "-1e3"] {
        assert!(!check_positive_number(text), "{text}");
    }
    assert_eq!(chart("#BPM 1.5e2").header.bpm.as_deref(), Some("1.5e2"));
}

#[test]
fn slots_are_two_digits_each() {
    let slots = decode_slots("01 zz\t00").unwrap();
    assert_eq!(slots.iter().map(|id| id.value()).collect::<Vec<u16>>(), vec![1, 1295, 0]);
    assert_eq!(decode_slots("0"), None);
    assert_eq!(decode_slots(""), Some(vec![]));
    assert_eq!(decode_slots("0!1-"), Some(vec![ObjId::null(), ObjId::null()]));
}

#[test]
fn what_is_open_at_the_end_is_told() {
    assert_eq!(
        warnings("#RANDOM 2\n#IF 1\n#TITLE a"),
        vec![
            Warning { kind: WarningKind::UnmatchedIf, token: 3 },
            Warning { kind: WarningKind::UnmatchedRandom, token: 3 },
        ]
    );
    assert_eq!(
        warnings("#IF 1\n#SETRANDOM 1\n#SETRANDOM 2\n#IF 2\n#ENDIF\n#TITLE a"),
        vec![
            Warning { kind: WarningKind::UnmatchedIf, token: 6 },
            Warning { kind: WarningKind::UnmatchedRandom, token: 6 },
            Warning { kind: WarningKind::UnmatchedRandom, token: 6 },
        ]
    );
    assert_eq!(chart("#RANDOM 2\n#IF 1\n#TITLE a").header.title.as_deref(), Some("a"));
}
