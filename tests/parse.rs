use cue::builder::{CueBuilder, ErrorKind};
use cue::cd::{DiscMode, CD};
use cue::cd_text::{CDText, PTI};
use cue::rem::{RemType, REM};
use cue::timecode::{parse_timecode, sectors_of, timecode_of, Timecode};
use cue::track::{Track, TrackFlag, TrackMode, TrackSubMode};

fn parse(text: &str) -> CD {
    CD::parse(text.to_string()).expect("sheet should parse")
}

fn parse_err(text: &str) -> (ErrorKind, usize) {
    match CD::parse(text.to_string()) {
        Ok(_) => panic!("sheet should not parse"),
        Err(e) => (e.kind, e.line),
    }
}

fn chars(s: &str) -> Vec<char> {
    s.chars().collect()
}

const TWO_TRACKS: &str = "FILE \"a.bin\" BINARY\nTRACK 01 AUDIO\nINDEX 01 00:00:00\nTRACK 02 AUDIO\nINDEX 00 03:00:00\nINDEX 01 03:02:00\n";

#[test]
fn timecode_round_trip_values() {
    for &(m, s, f) in &[(0u64, 0u64, 0u64), (3, 2, 0), (79, 59, 74), (1, 0, 1), (123456, 30, 40)] {
        let tc = Timecode { minutes: m, seconds: s, frames: f };
        assert_eq!(timecode_of(sectors_of(tc)), tc);
    }
}

#[test]
fn timecode_sector_formula() {
    assert_eq!(sectors_of(Timecode { minutes: 3, seconds: 0, frames: 0 }), 13500);
    assert_eq!(sectors_of(Timecode { minutes: 3, seconds: 2, frames: 0 }), 13650);
    assert_eq!(sectors_of(Timecode { minutes: 1, seconds: 2, frames: 3 }), 4653);
    assert_eq!(timecode_of(4653), Timecode { minutes: 1, seconds: 2, frames: 3 });
}

#[test]
fn timecode_text() {
    assert_eq!(
        parse_timecode(&chars("03:02:00")),
        Some(Timecode { minutes: 3, seconds: 2, frames: 0 })
    );
    assert_eq!(
        parse_timecode(&chars("120:59:74")),
        Some(Timecode { minutes: 120, seconds: 59, frames: 74 })
    );
    assert_eq!(parse_timecode(&chars("00:60:00")), None);
    assert_eq!(parse_timecode(&chars("00:00:75")), None);
    assert_eq!(parse_timecode(&chars("00:00")), None);
    assert_eq!(parse_timecode(&chars("00:00:00:00")), None);
    assert_eq!(parse_timecode(&chars("0a:00:00")), None);
    assert_eq!(parse_timecode(&chars("::")), None);
}

#[test]
fn two_track_example() {
    let cd = parse(TWO_TRACKS);
    assert_eq!(cd.get_track_count(), 2);
    let t1 = cd.get_track(1).unwrap();
    assert_eq!(t1.get_start(), 0);
    assert_eq!(t1.get_length(), 13500);
    let t2 = cd.get_track(2).unwrap();
    assert_eq!(t2.get_start(), 13650);
    assert_eq!(t2.get_index(0), Some(13500));
    assert_eq!(t2.get_index(1), Some(13650));
    assert_eq!(t2.get_length(), 0);
    assert_eq!(t1.get_filename(), "a.bin");
    assert_eq!(cd.get_mode(), DiscMode::CD_DA);
}

#[test]
fn track_count_matches_track_lines() {
    let text = "FILE \"a.bin\" BINARY\nTRACK 01 AUDIO\nINDEX 01 00:00:00\nTRACK 02 AUDIO\nINDEX 01 01:00:00\nTRACK 03 AUDIO\nINDEX 01 02:00:00\n";
    let cd = parse(text);
    assert_eq!(cd.get_track_count(), 3);
    assert_eq!(cd.tracks().len(), 3);
}

#[test]
fn track_lookup_out_of_range() {
    let cd = parse(TWO_TRACKS);
    assert!(cd.get_track(0).is_err());
    assert!(cd.get_track(cd.get_track_count() + 1).is_err());
    assert!(cd.get_track(-1).is_err());
    assert!(cd.get_track(1).is_ok());
}

#[test]
fn gaps_default_to_zero() {
    let cd = parse(TWO_TRACKS);
    for t in cd.tracks() {
        assert_eq!(t.get_zero_pre(), 0);
        assert_eq!(t.get_zero_post(), 0);
    }
}

#[test]
fn gaps_are_durations() {
    let text = "FILE \"a.bin\" BINARY\nTRACK 01 AUDIO\nPREGAP 00:02:00\nINDEX 01 00:00:00\nPOSTGAP 00:01:00\nTRACK 02 AUDIO\nINDEX 01 03:00:00\n";
    let cd = parse(text);
    let t1 = cd.get_track(1).unwrap();
    assert_eq!(t1.get_zero_pre(), 150);
    assert_eq!(t1.get_zero_post(), 75);
    assert_eq!(t1.get_length(), 13500 - 75);
}

#[test]
fn absent_cdtext_is_none() {
    let text = "TITLE \"\"\nFILE \"a.bin\" BINARY\nTRACK 01 AUDIO\nTITLE \"Song One\"\nINDEX 01 00:00:00\n";
    let cd = parse(text);
    assert_eq!(cd.get_cdtext().read(PTI::Title), Some(String::new()));
    assert_eq!(cd.get_cdtext().read(PTI::Performer), None);
    let t = cd.get_track(1).unwrap();
    assert_eq!(t.get_cdtext().read(PTI::Title), Some("Song One".to_string()));
    assert_eq!(t.get_cdtext().read(PTI::Performer), None);
    assert_eq!(t.get_cdtext().read(PTI::End), None);
}

#[test]
fn rem_lines_in_order_with_duplicates() {
    let text = "REM GENRE Rock\nREM COMMENT \"x\"\nREM GENRE Rock\nFILE \"a.bin\" BINARY\nTRACK 01 AUDIO\nREM one\nREM one\nINDEX 01 00:00:00\n";
    let cd = parse(text);
    let rem = cd.get_rem();
    assert_eq!(rem.len(), 3);
    assert_eq!(rem.read(0), Some("GENRE Rock".to_string()));
    assert_eq!(rem.read(1), Some("COMMENT \"x\"".to_string()));
    assert_eq!(rem.read(2), Some("GENRE Rock".to_string()));
    assert_eq!(rem.read(3), None);
    let trem = cd.get_track(1).unwrap().get_rem();
    assert_eq!(trem.read(0), Some("one".to_string()));
    assert_eq!(trem.read(1), Some("one".to_string()));
    assert_eq!(trem.read(2), None);
}

#[test]
fn track_before_file_is_syntax_error() {
    assert_eq!(parse_err("TRACK 01 AUDIO\nINDEX 01 00:00:00\n"), (ErrorKind::Syntax, 1));
}

#[test]
fn seconds_out_of_range_is_syntax_error() {
    let text = "FILE \"a.bin\" BINARY\nTRACK 01 AUDIO\nINDEX 01 00:60:00\n";
    assert_eq!(parse_err(text), (ErrorKind::Syntax, 3));
}

#[test]
fn empty_sheet_is_semantic_error() {
    assert_eq!(parse_err(""), (ErrorKind::Semantic, 0));
    assert_eq!(parse_err("\n  \n"), (ErrorKind::Semantic, 0));
    assert_eq!(parse_err("REM nothing\nFILE \"a.bin\" BINARY\n"), (ErrorKind::Semantic, 0));
}

#[test]
fn missing_index_one_is_semantic_error() {
    let text = "FILE \"a.bin\" BINARY\nTRACK 01 AUDIO\nINDEX 00 00:00:00\n";
    assert_eq!(parse_err(text), (ErrorKind::Semantic, 0));
}

#[test]
fn track_number_gap_is_semantic_error() {
    let text = "FILE \"a.bin\" BINARY\nTRACK 02 AUDIO\nINDEX 01 00:00:00\n";
    assert_eq!(parse_err(text), (ErrorKind::Semantic, 2));
    let dup = "FILE \"a.bin\" BINARY\nTRACK 01 AUDIO\nINDEX 01 00:00:00\nTRACK 01 AUDIO\n";
    assert_eq!(parse_err(dup), (ErrorKind::Semantic, 4));
}

#[test]
fn overlapping_tracks_are_semantic_error() {
    let text = "FILE \"a.bin\" BINARY\nTRACK 01 AUDIO\nINDEX 01 01:00:00\nTRACK 02 AUDIO\nINDEX 01 00:30:00\n";
    assert_eq!(parse_err(text), (ErrorKind::Semantic, 0));
}

#[test]
fn unterminated_quote_is_syntax_error() {
    assert_eq!(parse_err("FILE \"a.bin BINARY\n"), (ErrorKind::Syntax, 1));
}

#[test]
fn scope_errors() {
    assert_eq!(parse_err("INDEX 01 00:00:00\n"), (ErrorKind::Syntax, 1));
    assert_eq!(parse_err("FLAGS DCP\n"), (ErrorKind::Syntax, 1));
    assert_eq!(parse_err("FILE \"a\" WAVE\nCATALOG 0000000000000\n"), (ErrorKind::Syntax, 2));
    assert_eq!(parse_err("FILE \"a\" WAVE\nCDTEXTFILE \"x.cdt\"\n"), (ErrorKind::Syntax, 2));
    let pregap_late = "FILE \"a\" WAVE\nTRACK 01 AUDIO\nINDEX 01 00:00:00\nPREGAP 00:02:00\n";
    assert_eq!(parse_err(pregap_late), (ErrorKind::Syntax, 4));
    let index_down = "FILE \"a\" WAVE\nTRACK 01 AUDIO\nINDEX 01 00:02:00\nINDEX 00 00:00:00\n";
    assert_eq!(parse_err(index_down), (ErrorKind::Syntax, 4));
    assert_eq!(parse_err("FILE \"a\" WAVE\nTRACK 01 MODE9/1\n"), (ErrorKind::Syntax, 2));
    assert_eq!(parse_err("FILE \"a\" WAVE\nTRACK xx AUDIO\n"), (ErrorKind::Syntax, 2));
    assert_eq!(parse_err("FILE \"a\"\n"), (ErrorKind::Syntax, 1));
}

#[test]
fn unknown_directives_and_flags_are_skipped() {
    let text = "SOMETHING new here\nFILE \"a.bin\" BINARY\nTRACK 01 AUDIO\nFLAGS DCP WHATEVER PRE\nINDEX 01 00:00:00\n";
    let cd = parse(text);
    let t = cd.get_track(1).unwrap();
    assert!(t.flag_is_set(TrackFlag::CopyPermitted));
    assert!(t.flag_is_set(TrackFlag::PreEmphasis));
    assert!(!t.flag_is_set(TrackFlag::Data));
    assert!(!t.flag_is_set(TrackFlag::FourChannel));
    assert!(!t.flag_is_set(TrackFlag::SCMS));
    assert!(t.flag_is_set(TrackFlag::Any));
    assert!(!t.flag_is_set(TrackFlag::NoFlag));
}

#[test]
fn disc_fields_and_track_details() {
    let text = "CATALOG 1234567890123\nCDTEXTFILE \"disc.cdt\"\nPERFORMER \"Some Band\"\nFILE \"data.bin\" BINARY\nTRACK 01 MODE1/2352\nISRC ABCDE1234567\nINDEX 01 00:00:00\nTRACK 02 MODE2/2352 RW_RAW\nINDEX 01 10:00:00\n";
    let cd = parse(text);
    assert_eq!(cd.get_catalog(), Some("1234567890123".to_string()));
    assert_eq!(cd.get_cdtextfile(), Some("disc.cdt".to_string()));
    assert_eq!(cd.get_cdtext().read(PTI::Performer), Some("Some Band".to_string()));
    assert_eq!(cd.get_mode(), DiscMode::CD_ROM);
    let t1 = cd.get_track(1).unwrap();
    assert_eq!(t1.get_mode(), TrackMode::Mode1Raw);
    assert_eq!(t1.get_sub_mode(), None);
    assert_eq!(t1.get_isrc(), Some("ABCDE1234567".to_string()));
    assert_eq!(t1.get_length(), 45000);
    let t2 = cd.get_track(2).unwrap();
    assert_eq!(t2.get_mode(), TrackMode::Mode2Raw);
    assert_eq!(t2.get_sub_mode(), Some(TrackSubMode::RW_RAW));
    assert_eq!(t2.get_isrc(), None);
    assert_eq!(t2.get_index(2), None);
    assert_eq!(t2.get_index(100), None);
}

#[test]
fn xa_disc_mode() {
    let text = "FILE \"a.bin\" BINARY\nTRACK 01 MODE2/2048\nINDEX 01 00:00:00\nTRACK 02 AUDIO\nINDEX 01 05:00:00\n";
    assert_eq!(parse(text).get_mode(), DiscMode::CD_ROM_XA);
}

#[test]
fn tracks_in_separate_files() {
    let text = "FILE \"01.wav\" WAVE\r\n  TRACK 01 AUDIO\r\n    TITLE \"First\"\r\n    INDEX 01 00:00:00\r\nFILE \"02.wav\" WAVE\r\n  TRACK 02 AUDIO\r\n    INDEX 01 00:00:00\r\n";
    let cd = parse(text);
    let t1 = cd.get_track(1).unwrap();
    let t2 = cd.get_track(2).unwrap();
    assert_eq!(t1.get_filename(), "01.wav");
    assert_eq!(t2.get_filename(), "02.wav");
    assert_eq!(t1.get_length(), 0);
    assert_eq!(t1.get_cdtext().read(PTI::Title), Some("First".to_string()));
}

#[test]
fn builder_step_by_step() {
    let mut b = CueBuilder::new();
    assert_eq!(b.apply_line(&chars("FILE \"a b.wav\" WAVE")), Ok(()));
    assert_eq!(b.apply_line(&chars("TRACK 01 AUDIO")), Ok(()));
    assert_eq!(b.apply_line(&chars("INDEX 01 00:00:00")), Ok(()));
    assert_eq!(b.apply_line(&chars("CATALOG 1")), Err(ErrorKind::Syntax));
    let cd = b.finish().expect("builder should finish");
    assert_eq!(cd.get_track(1).unwrap().get_filename(), "a b.wav");
}

#[test]
fn containers_from_parts() {
    let text = CDText::from(vec![Some("T".to_string()), None, Some("S".to_string())]);
    assert_eq!(text.read(PTI::Title), Some("T".to_string()));
    assert_eq!(text.read(PTI::Performer), None);
    assert_eq!(text.read(PTI::Songwriter), Some("S".to_string()));
    assert_eq!(text.read(PTI::SizeInfo), None);
    let rem = REM::from(vec!["a".to_string(), "b".to_string()]);
    assert_eq!(rem.read(1), Some("b".to_string()));
    assert_eq!(rem.read(2), None);
    let t = Track::from("x.bin".to_string(), TrackMode::Audio, None);
    assert_eq!(t.get_filename(), "x.bin");
    assert_eq!(t.get_index(1), None);
    assert!(!t.flag_is_set(TrackFlag::Any));
}

#[test]
fn well_known_rem_keys() {
    let text = "REM GENRE Jazz\nREM DATE 1999\nREM REPLAYGAIN_ALBUM_GAIN -7.5 dB\nREM DATE 2001\nFILE \"a.bin\" BINARY\nTRACK 01 AUDIO\nINDEX 01 00:00:00\n";
    let cd = parse(text);
    let rem = cd.get_rem();
    assert_eq!(rem.read_type(RemType::Date), Some("1999".to_string()));
    assert_eq!(rem.read_type(RemType::ReplayGainAlbumGain), Some("-7.5 dB".to_string()));
    assert_eq!(rem.read_type(RemType::ReplayGainTrackPeak), None);
    assert_eq!(rem.read_type(RemType::End), None);
    assert_eq!(rem.read(1), Some("DATE 1999".to_string()));
}

#[test]
fn later_index_before_earlier_is_semantic_error() {
    let text = "FILE \"a.bin\" BINARY\nTRACK 01 AUDIO\nINDEX 01 04:00:00\nTRACK 02 AUDIO\nINDEX 00 05:00:00\nINDEX 01 03:00:00\n";
    assert_eq!(parse_err(text), (ErrorKind::Semantic, 6));
}

#[test]
fn starts_going_back_in_one_file_is_semantic_error() {
    let text = "FILE \"a.bin\" BINARY\nTRACK 01 AUDIO\nINDEX 01 04:00:00\nFILE \"b.bin\" BINARY\nTRACK 02 AUDIO\nINDEX 01 00:00:00\nFILE \"a.bin\" BINARY\nTRACK 03 AUDIO\nINDEX 01 01:00:00\n";
    assert_eq!(parse_err(text), (ErrorKind::Semantic, 0));
    let fine = "FILE \"a.bin\" BINARY\nTRACK 01 AUDIO\nINDEX 01 00:00:00\nFILE \"b.bin\" BINARY\nTRACK 02 AUDIO\nINDEX 01 00:00:00\nFILE \"a.bin\" BINARY\nTRACK 03 AUDIO\nINDEX 01 05:00:00\n";
    let cd = parse(fine);
    assert_eq!(cd.get_track(3).unwrap().get_start(), 22500);
}

#[test]
fn failed_line_leaves_builder_usable() {
    let mut b = CueBuilder::new();
    assert_eq!(b.apply_line(&chars("FILE \"a.wav\" WAVE")), Ok(()));
    assert_eq!(b.apply_line(&chars("TRACK 01 AUDIO")), Ok(()));
    assert_eq!(b.apply_line(&chars("INDEX 01 00:10:00")), Ok(()));
    assert_eq!(b.apply_line(&chars("INDEX 02 00:05:00")), Err(ErrorKind::Semantic));
    assert_eq!(b.apply_line(&chars("INDEX 02 00:20:00")), Ok(()));
    let cd = b.finish().expect("builder should finish");
    assert_eq!(cd.get_track(1).unwrap().get_index(2), Some(1500));
}

#[test]
fn gap_on_one_track_only() {
    let text = "FILE \"a.bin\" BINARY\nTRACK 01 AUDIO\nINDEX 01 00:00:00\nTRACK 02 AUDIO\nPREGAP 00:02:00\nINDEX 01 03:00:00\nPOSTGAP 00:01:00\nTRACK 03 AUDIO\nINDEX 01 06:00:00\n";
    let cd = parse(text);
    assert_eq!(cd.get_track(1).unwrap().get_zero_pre(), 0);
    assert_eq!(cd.get_track(1).unwrap().get_zero_post(), 0);
    assert_eq!(cd.get_track(2).unwrap().get_zero_pre(), 150);
    assert_eq!(cd.get_track(2).unwrap().get_zero_post(), 75);
    assert_eq!(cd.get_track(3).unwrap().get_zero_pre(), 0);
    assert_eq!(cd.get_track(3).unwrap().get_zero_post(), 0);
    assert_eq!(cd.get_track(2).unwrap().get_index(1), Some(13500));
}
