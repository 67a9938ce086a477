//! The directive state machine: each line of a CUE sheet, checked against
//! the scope it appears in, is folded into a builder that holds the disc
//! read so far.

use vstd::prelude::*;

use crate::cd::{starts_ordered, begin_of, disc_mode_spec, finalized, finish_spec, gap_ok, max_rank, start_of, DiscMode, DiscView, CD};
use crate::cd_text::{CDText, PACK_COUNT};
use crate::lexer::{
    is_word, skip_blanks, skip_blanks_exec, string_from, token_at, token_at_exec, tokenize,
    tokens_from, trim_end, trim_end_exec, copy_range, words, lemma_skip_blanks_bounds,
};
use crate::rem::REM;
use crate::timecode::{lemma_timecode_round_trip, timecode_spec, max_sectors, number_spec, parse_number, parse_timecode, parse_timecode_spec,
    sectors_of};
use crate::track::{
    fresh_track, index_entry, indices_at_most, indices_clear_from, FlagSet, Track, TrackMode, TrackSubMode, TrackView,
    INDEX_SLOTS,
};

verus! {

/// The two kinds of failure that abort parsing.
#[derive(Clone, Copy, Debug, PartialEq, Eq, Structural)]
pub enum ErrorKind {
    /// A malformed line, or a directive outside the scope where it is allowed.
    Syntax,
    /// Well-formed text that describes no consistent disc.
    Semantic,
}

/// The scope that the lines read so far leave open.
#[derive(Clone, Copy, Debug, PartialEq, Eq, Structural)]
pub enum Scope {
    /// No file opened yet.
    Global,
    /// A file opened, no track in it yet.
    InFile,
    /// A track opened.
    InTrack,
}

/// What a builder holds, as plain values.
pub struct BuilderView {
    pub scope: Scope,
    pub file: Option<Seq<char>>,
    pub catalog: Option<Seq<char>>,
    pub cdtextfile: Option<Seq<char>>,
    pub cdtext: Seq<Option<Seq<char>>>,
    pub rem: Seq<Seq<char>>,
    pub tracks: Seq<TrackView>,
}

/// The largest track number.
pub const MAX_TRACKS: usize = 99;

/// The largest index number.
pub const MAX_INDEX: u64 = 99;

/// An index or gap value that a timecode can give.
pub open spec fn sector_ok(v: i64) -> bool {
    0 <= v <= max_sectors()
}

pub open spec fn track_ok(t: TrackView) -> bool {
    &&& t.indices.len() == INDEX_SLOTS
    &&& t.cdtext.len() == PACK_COUNT
    &&& sector_ok(t.pregap)
    &&& sector_ok(t.postgap)
    &&& forall|k: int| 0 <= k < t.indices.len() && (#[trigger] t.indices[k]) is Some
        ==> sector_ok(t.indices[k]->0)
}

/// The invariant of a builder.
pub open spec fn builder_ok(b: BuilderView) -> bool {
    &&& b.cdtext.len() == PACK_COUNT
    &&& b.tracks.len() <= MAX_TRACKS
    &&& forall|i: int| 0 <= i < b.tracks.len() ==> track_ok(#[trigger] b.tracks[i])
    &&& b.scope == Scope::InTrack ==> b.tracks.len() > 0
    &&& b.scope != Scope::Global ==> b.file is Some
}

/// The builder before any line.
pub open spec fn initial_builder() -> BuilderView {
    BuilderView {
        scope: Scope::Global,
        file: None,
        catalog: None,
        cdtextfile: None,
        cdtext: crate::cd_text::no_packs(),
        rem: Seq::empty(),
        tracks: Seq::empty(),
    }
}

pub open spec fn last_track(b: BuilderView) -> TrackView {
    b.tracks.last()
}

/// `b` with its last track replaced by `t`.
pub open spec fn with_last(b: BuilderView, t: TrackView) -> BuilderView {
    BuilderView { tracks: b.tracks.update(b.tracks.len() - 1, t), ..b }
}

pub open spec fn open_file(b: BuilderView) -> Seq<char> {
    match b.file {
        Some(f) => f,
        None => Seq::empty(),
    }
}

/// The track format that a `TRACK` line names.
pub open spec fn track_mode_of(w: Seq<char>) -> Option<TrackMode> {
    if w == "AUDIO"@ {
        Some(TrackMode::Audio)
    } else if w == "MODE1/2048"@ {
        Some(TrackMode::Mode1)
    } else if w == "MODE1/2352"@ {
        Some(TrackMode::Mode1Raw)
    } else if w == "MODE2/2336"@ {
        Some(TrackMode::Mode2)
    } else if w == "MODE2/2048"@ {
        Some(TrackMode::Mode2Form1)
    } else if w == "MODE2/2324"@ {
        Some(TrackMode::Mode2Form2)
    } else if w == "MODE2/2332"@ {
        Some(TrackMode::Mode2FormMix)
    } else if w == "MODE2/2352"@ {
        Some(TrackMode::Mode2Raw)
    } else {
        None
    }
}

/// The subchannel format of a `TRACK` line's arguments: absent with two
/// arguments, named by the third otherwise; `None` when it names none.
pub open spec fn track_sub_of(args: Seq<Seq<char>>) -> Option<Option<TrackSubMode>> {
    if args.len() < 3 {
        Some(None)
    } else if args[2] == "RW"@ {
        Some(Some(TrackSubMode::RW))
    } else if args[2] == "RW_RAW"@ {
        Some(Some(TrackSubMode::RW_RAW))
    } else {
        None
    }
}

/// The CD-TEXT slot that a directive keyword sets.
pub open spec fn pack_slot(w: Seq<char>) -> Option<int> {
    if w == "TITLE"@ {
        Some(0)
    } else if w == "PERFORMER"@ {
        Some(1)
    } else if w == "SONGWRITER"@ {
        Some(2)
    } else if w == "COMPOSER"@ {
        Some(3)
    } else if w == "ARRANGER"@ {
        Some(4)
    } else if w == "MESSAGE"@ {
        Some(5)
    } else if w == "DISC_ID"@ {
        Some(6)
    } else if w == "GENRE"@ {
        Some(7)
    } else if w == "TOC_INFO1"@ {
        Some(8)
    } else if w == "TOC_INFO2"@ {
        Some(9)
    } else if w == "UPC_EAN"@ {
        Some(14)
    } else if w == "SIZE_INFO"@ {
        Some(15)
    } else {
        None
    }
}

/// The flags after one `FLAGS` name; an unknown name changes nothing.
pub open spec fn add_flag(f: FlagSet, w: Seq<char>) -> FlagSet {
    if w == "PRE"@ {
        FlagSet { pre_emphasis: true, ..f }
    } else if w == "DCP"@ {
        FlagSet { copy_permitted: true, ..f }
    } else if w == "DATA"@ {
        FlagSet { data: true, ..f }
    } else if w == "4CH"@ {
        FlagSet { four_channel: true, ..f }
    } else if w == "SCMS"@ {
        FlagSet { scms: true, ..f }
    } else {
        f
    }
}

/// The flags after all the names of a `FLAGS` line.
pub open spec fn add_flags(f: FlagSet, ws: Seq<Seq<char>>) -> FlagSet
    decreases ws.len(),
{
    if ws.len() == 0 {
        f
    } else {
        add_flags(add_flag(f, ws[0]), ws.drop_first())
    }
}

/// `FILE <name> <type>`: opens a file scope.
pub open spec fn on_file(b: BuilderView, args: Seq<Seq<char>>) -> Result<BuilderView, ErrorKind> {
    if args.len() != 2 {
        Err(ErrorKind::Syntax)
    } else {
        Ok(BuilderView { scope: Scope::InFile, file: Some(args[0]), ..b })
    }
}

/// `TRACK <number> <mode> [<subchannel>]`: opens the next track in the open file.
pub open spec fn on_track(b: BuilderView, args: Seq<Seq<char>>) -> Result<BuilderView, ErrorKind> {
    if b.scope == Scope::Global || args.len() < 2 || args.len() > 3 {
        Err(ErrorKind::Syntax)
    } else {
        match (number_spec(args[0], MAX_INDEX as nat), track_mode_of(args[1]), track_sub_of(args)) {
            (Some(n), Some(mode), Some(sub)) => {
                if n != b.tracks.len() + 1 {
                    Err(ErrorKind::Semantic)
                } else {
                    Ok(BuilderView {
                        scope: Scope::InTrack,
                        tracks: b.tracks.push(fresh_track(open_file(b), mode, sub)),
                        ..b
                    })
                }
            },
            _ => Err(ErrorKind::Syntax),
        }
    }
}

/// `INDEX <number> <timecode>`: records an index of the open track. Index
/// numbers may not go down (a syntax error), nor may the sectors of the
/// indices as their numbers go up (a semantic error).
pub open spec fn on_index(b: BuilderView, args: Seq<Seq<char>>) -> Result<BuilderView, ErrorKind> {
    if b.scope != Scope::InTrack || args.len() != 2 {
        Err(ErrorKind::Syntax)
    } else {
        match (number_spec(args[0], MAX_INDEX as nat), parse_timecode_spec(args[1])) {
            (Some(n), Some(tc)) => {
                let t = last_track(b);
                if !indices_clear_from(t, n + 1 as int) {
                    Err(ErrorKind::Syntax)
                } else if !indices_at_most(t, n as int, tc.sectors() as i64) {
                    Err(ErrorKind::Semantic)
                } else {
                    Ok(with_last(b, TrackView {
                        indices: t.indices.update(n as int, Some(tc.sectors() as i64)),
                        ..t
                    }))
                }
            },
            _ => Err(ErrorKind::Syntax),
        }
    }
}

/// `PREGAP <timecode>` (before any index) or `POSTGAP <timecode>`.
pub open spec fn on_gap(b: BuilderView, args: Seq<Seq<char>>, pre: bool) -> Result<BuilderView, ErrorKind> {
    if b.scope != Scope::InTrack || args.len() != 1 {
        Err(ErrorKind::Syntax)
    } else {
        match parse_timecode_spec(args[0]) {
            Some(tc) => {
                let t = last_track(b);
                if pre {
                    if !indices_clear_from(t, 0) {
                        Err(ErrorKind::Syntax)
                    } else {
                        Ok(with_last(b, TrackView { pregap: tc.sectors() as i64, ..t }))
                    }
                } else {
                    Ok(with_last(b, TrackView { postgap: tc.sectors() as i64, ..t }))
                }
            },
            None => Err(ErrorKind::Syntax),
        }
    }
}

/// `FLAGS <name...>`: sets the named flags of the open track.
pub open spec fn on_flags(b: BuilderView, args: Seq<Seq<char>>) -> Result<BuilderView, ErrorKind> {
    if b.scope != Scope::InTrack {
        Err(ErrorKind::Syntax)
    } else {
        let t = last_track(b);
        Ok(with_last(b, TrackView { flags: add_flags(t.flags, args), ..t }))
    }
}

/// `ISRC <code>`: the recording code of the open track.
pub open spec fn on_isrc(b: BuilderView, args: Seq<Seq<char>>) -> Result<BuilderView, ErrorKind> {
    if b.scope != Scope::InTrack || args.len() != 1 {
        Err(ErrorKind::Syntax)
    } else {
        let t = last_track(b);
        Ok(with_last(b, TrackView { isrc: Some(args[0]), ..t }))
    }
}

/// `CATALOG <code>` (`catalog`) or `CDTEXTFILE <path>`: disc fields, before any file.
pub open spec fn on_disc_field(b: BuilderView, args: Seq<Seq<char>>, catalog: bool) -> Result<BuilderView, ErrorKind> {
    if b.scope != Scope::Global || args.len() != 1 {
        Err(ErrorKind::Syntax)
    } else if catalog {
        Ok(BuilderView { catalog: Some(args[0]), ..b })
    } else {
        Ok(BuilderView { cdtextfile: Some(args[0]), ..b })
    }
}

/// A CD-TEXT directive: sets a pack of the open track, or of the disc.
pub open spec fn on_pack(b: BuilderView, slot: int, args: Seq<Seq<char>>) -> Result<BuilderView, ErrorKind> {
    if args.len() != 1 {
        Err(ErrorKind::Syntax)
    } else if b.scope == Scope::InTrack {
        let t = last_track(b);
        Ok(with_last(b, TrackView { cdtext: t.cdtext.update(slot, Some(args[0])), ..t }))
    } else {
        Ok(BuilderView { cdtext: b.cdtext.update(slot, Some(args[0])), ..b })
    }
}

/// `REM <text>`: a comment of the open track, or of the disc.
pub open spec fn on_rem(b: BuilderView, text: Seq<char>) -> BuilderView {
    if b.scope == Scope::InTrack {
        let t = last_track(b);
        with_last(b, TrackView { rem: t.rem.push(text), ..t })
    } else {
        BuilderView { rem: b.rem.push(text), ..b }
    }
}

/// One directive, by keyword. An unknown keyword is skipped.
pub open spec fn directive_spec(b: BuilderView, kw: Seq<char>, args: Seq<Seq<char>>) -> Result<BuilderView, ErrorKind> {
    if kw == "FILE"@ {
        on_file(b, args)
    } else if kw == "TRACK"@ {
        on_track(b, args)
    } else if kw == "INDEX"@ {
        on_index(b, args)
    } else if kw == "PREGAP"@ {
        on_gap(b, args, true)
    } else if kw == "POSTGAP"@ {
        on_gap(b, args, false)
    } else if kw == "FLAGS"@ {
        on_flags(b, args)
    } else if kw == "ISRC"@ {
        on_isrc(b, args)
    } else if kw == "CATALOG"@ {
        on_disc_field(b, args, true)
    } else if kw == "CDTEXTFILE"@ {
        on_disc_field(b, args, false)
    } else {
        match pack_slot(kw) {
            Some(slot) => on_pack(b, slot, args),
            None => Ok(b),
        }
    }
}

/// One line: blank lines change nothing; a `REM` line keeps the rest of the
/// line as it stands, trailing blanks removed; any other line is split into
/// a keyword and its arguments.
pub open spec fn line_spec(b: BuilderView, line: Seq<char>) -> Result<BuilderView, ErrorKind> {
    let i = skip_blanks(line, 0);
    if i >= line.len() {
        Ok(b)
    } else {
        match token_at(line, i) {
            None => Err(ErrorKind::Syntax),
            Some((kw, k)) => {
                if kw == "REM"@ {
                    Ok(on_rem(b, trim_end(line.subrange(skip_blanks(line, k), line.len() as int))))
                } else {
                    match tokens_from(line, k) {
                        None => Err(ErrorKind::Syntax),
                        Some(args) => directive_spec(b, kw, args),
                    }
                }
            },
        }
    }
}

/// The keyword of a line: its first token, if it has one.
pub open spec fn line_keyword(line: Seq<char>) -> Option<Seq<char>> {
    let i = skip_blanks(line, 0);
    if i >= line.len() {
        None
    } else {
        match token_at(line, i) {
            Some((kw, _)) => Some(kw),
            None => None,
        }
    }
}

/// The text that a `REM` line keeps.
pub open spec fn rem_text(line: Seq<char>) -> Seq<char> {
    let i = skip_blanks(line, 0);
    match token_at(line, i) {
        Some((_, k)) => trim_end(line.subrange(skip_blanks(line, k), line.len() as int)),
        None => Seq::empty(),
    }
}

/// A track is open only where one has been opened.
pub open spec fn scope_ok(b: BuilderView) -> bool {
    b.scope == Scope::InTrack ==> b.tracks.len() > 0
}

/// A line that applies keeps a track open where one was.
pub proof fn lemma_line_keeps_scope(b: BuilderView, line: Seq<char>)
    requires
        scope_ok(b),
        line_spec(b, line) is Ok,
    ensures
        scope_ok(line_spec(b, line)->Ok_0),
{
}

/// A line adds a track exactly when its keyword is `TRACK`, and then one.
pub proof fn lemma_line_track_count(b: BuilderView, line: Seq<char>)
    requires
        scope_ok(b),
        line_spec(b, line) is Ok,
    ensures
        line_spec(b, line)->Ok_0.tracks.len() == b.tracks.len() + if line_keyword(line) == Some(
            "TRACK"@,
        ) {
            1int
        } else {
            0int
        },
{
    reveal_strlit("TRACK");
    reveal_strlit("FILE");
    reveal_strlit("REM");
    assert("REM"@.len() == 3 && "TRACK"@.len() == 5);
    let i = skip_blanks(line, 0);
    if i < line.len() {
        match token_at(line, i) {
            Some((kw, k)) => {
                if kw != "REM"@ {
                    let args = tokens_from(line, k)->Some_0;
                    assert(line_spec(b, line) == directive_spec(b, kw, args));
                    if kw == "TRACK"@ {
                        assert("TRACK"@.len() == 5);
                        assert("FILE"@.len() == 4);
                        assert(kw != "FILE"@);
                        assert(directive_spec(b, kw, args) == on_track(b, args));
                        assert(line_spec(b, line)->Ok_0.tracks.len() == b.tracks.len() + 1);
                    } else {
                        assert(line_spec(b, line)->Ok_0.tracks.len() == b.tracks.len());
                    }
                } else {
                    assert(line_spec(b, line)->Ok_0.tracks.len() == b.tracks.len());
                }
            },
            None => {},
        }
    }
}

/// A track's pregap and postgap change only on `PREGAP` and `POSTGAP`
/// lines, and a track opens with both at 0.
pub proof fn lemma_gaps_only_from_gap_lines(b: BuilderView, line: Seq<char>)
    requires
        builder_ok(b),
        line_spec(b, line) is Ok,
        line_keyword(line) != Some("PREGAP"@),
        line_keyword(line) != Some("POSTGAP"@),
    ensures
        ({
            let after = line_spec(b, line)->Ok_0;
            &&& b.tracks.len() <= after.tracks.len()
            &&& forall|i: int| 0 <= i < b.tracks.len() ==> {
                &&& (#[trigger] after.tracks[i]).pregap == b.tracks[i].pregap
                &&& after.tracks[i].postgap == b.tracks[i].postgap
            }
            &&& forall|i: int| b.tracks.len() <= i < after.tracks.len() ==> {
                &&& (#[trigger] after.tracks[i]).pregap == 0
                &&& after.tracks[i].postgap == 0
            }
        }),
{
}

/// A `REM` line appends its text at the end of the comments of the open
/// track, or of the disc, keeping every earlier comment; any other line
/// leaves all comments as they are.
pub proof fn lemma_rem_order(b: BuilderView, line: Seq<char>)
    requires
        scope_ok(b),
        line_spec(b, line) is Ok,
    ensures
        ({
            let after = line_spec(b, line)->Ok_0;
            if line_keyword(line) == Some("REM"@) {
                if b.scope == Scope::InTrack {
                    &&& after.rem == b.rem
                    &&& after.tracks.len() == b.tracks.len()
                    &&& after.tracks.last().rem == b.tracks.last().rem.push(rem_text(line))
                    &&& forall|i: int| 0 <= i < b.tracks.len() - 1
                        ==> (#[trigger] after.tracks[i]).rem == b.tracks[i].rem
                } else {
                    &&& after.rem == b.rem.push(rem_text(line))
                    &&& after.tracks == b.tracks
                }
            } else {
                &&& after.rem == b.rem
                &&& b.tracks.len() <= after.tracks.len()
                &&& forall|i: int| 0 <= i < b.tracks.len()
                    ==> (#[trigger] after.tracks[i]).rem == b.tracks[i].rem
            }
        }),
{
}

/// The pregap (`pre`) or postgap of a track.
pub open spec fn gap_of(t: TrackView, pre: bool) -> i64 {
    if pre {
        t.pregap
    } else {
        t.postgap
    }
}

/// The keyword that sets the pregap (`pre`) or the postgap.
pub open spec fn gap_keyword(pre: bool) -> Seq<char> {
    if pre {
        "PREGAP"@
    } else {
        "POSTGAP"@
    }
}

/// Track `k` (counted from 0) keeps its gap through a line, unless the line
/// sets that gap while track `k` is the open one; a track the line opens has
/// the gap at 0.
pub proof fn lemma_line_gap(b: BuilderView, line: Seq<char>, k: int, pre: bool)
    requires
        scope_ok(b),
        line_spec(b, line) is Ok,
        0 <= k,
        !(line_keyword(line) == Some(gap_keyword(pre)) && b.tracks.len() == k + 1),
    ensures
        ({
            let after = line_spec(b, line)->Ok_0;
            &&& k < b.tracks.len() ==> gap_of(after.tracks[k], pre) == gap_of(b.tracks[k], pre)
            &&& b.tracks.len() <= k < after.tracks.len() ==> gap_of(after.tracks[k], pre) == 0
        }),
{
    reveal_strlit("FILE");
    reveal_strlit("TRACK");
    reveal_strlit("INDEX");
    reveal_strlit("PREGAP");
    reveal_strlit("POSTGAP");
    reveal_strlit("REM");
    assert("FILE"@.len() == 4 && "TRACK"@.len() == 5 && "INDEX"@.len() == 5);
    assert("PREGAP"@.len() == 6 && "POSTGAP"@.len() == 7 && "REM"@.len() == 3);
    lemma_line_track_count(b, line);
}

/// The scope after a line that applies: a `TRACK` line opens a track, a
/// `FILE` line a file; other lines keep the scope's kind.
pub proof fn lemma_line_scope(b: BuilderView, line: Seq<char>)
    requires
        line_spec(b, line) is Ok,
    ensures
        (line_spec(b, line)->Ok_0.scope == Scope::InTrack) == (line_keyword(line) == Some("TRACK"@)
            || (line_keyword(line) != Some("FILE"@) && b.scope == Scope::InTrack)),
{
    reveal_strlit("FILE");
    reveal_strlit("TRACK");
    reveal_strlit("REM");
    assert("FILE"@.len() == 4 && "TRACK"@.len() == 5 && "REM"@.len() == 3);
    let i = skip_blanks(line, 0);
    if i < line.len() {
        match token_at(line, i) {
            Some((kw, k)) => {
                if kw != "REM"@ {
                    let args = tokens_from(line, k)->Some_0;
                    assert(line_spec(b, line) == directive_spec(b, kw, args));
                    if kw == "TRACK"@ {
                        assert(kw != "FILE"@);
                        assert(directive_spec(b, kw, args) == on_track(b, args));
                    }
                }
            },
            None => {},
        }
    }
}

/// CD-TEXT slot `slot` is absent on the disc and on every track.
pub open spec fn slot_absent(b: BuilderView, slot: int) -> bool {
    &&& b.cdtext.len() == PACK_COUNT
    &&& b.cdtext[slot] is None
    &&& forall|i: int| 0 <= i < b.tracks.len() ==> {
        &&& (#[trigger] b.tracks[i]).cdtext.len() == PACK_COUNT
        &&& b.tracks[i].cdtext[slot] is None
    }
}

/// A line whose keyword does not name CD-TEXT slot `slot` leaves that slot
/// absent where it was.
pub proof fn lemma_line_slot(b: BuilderView, line: Seq<char>, slot: int)
    requires
        scope_ok(b),
        0 <= slot < PACK_COUNT,
        slot_absent(b, slot),
        line_spec(b, line) is Ok,
        !(line_keyword(line) matches Some(kw) && pack_slot(kw) == Some(slot)),
    ensures
        slot_absent(line_spec(b, line)->Ok_0, slot),
{
}

/// An `INDEX` directive that applies records, on the open track, a sector
/// that converts back to exactly the timecode written on the line.
pub proof fn lemma_index_round_trip(b: BuilderView, args: Seq<Seq<char>>)
    requires
        builder_ok(b),
        on_index(b, args) is Ok,
    ensures
        ({
            let after = on_index(b, args)->Ok_0;
            let n = number_spec(args[0], MAX_INDEX as nat)->Some_0;
            let tc = parse_timecode_spec(args[1])->Some_0;
            &&& index_entry(after.tracks.last(), n as int) == Some(tc.sectors() as i64)
            &&& timecode_spec(tc.sectors()) == tc
            &&& tc.sectors() as i64 == tc.sectors()
        }),
{
    let tc = parse_timecode_spec(args[1])->Some_0;
    assert(tc.valid());
    lemma_timecode_round_trip(tc);
    assert(track_ok(b.tracks[b.tracks.len() - 1]));
    assert(tc.sectors() <= max_sectors()) by (nonlinear_arith)
        requires
            tc.minutes <= crate::timecode::MAX_MINUTES,
            tc.seconds < 60,
            tc.frames < 75,
            tc.sectors() == tc.minutes * 4500 + tc.seconds * 75 + tc.frames,
            max_sectors() == crate::timecode::MAX_MINUTES * 4500 + 59 * 75 + 74;
}

/// Builds a disc description one line at a time.
#[derive(Debug)]
pub struct CueBuilder {
    scope: Scope,
    file: Option<String>,
    catalog: Option<String>,
    cdtextfile: Option<String>,
    cdtext: CDText,
    rem: REM,
    tracks: Vec<Track>,
}

pub open spec fn track_views(ts: Seq<Track>) -> Seq<TrackView> {
    ts.map_values(|t: Track| t@)
}

impl View for CueBuilder {
    type V = BuilderView;

    closed spec fn view(&self) -> BuilderView {
        BuilderView {
            scope: self.scope,
            file: crate::cd_text::opt_chars(self.file),
            catalog: crate::cd_text::opt_chars(self.catalog),
            cdtextfile: crate::cd_text::opt_chars(self.cdtextfile),
            cdtext: self.cdtext@,
            rem: self.rem@,
            tracks: track_views(self.tracks@),
        }
    }
}

/// An executable step `r`, taking the builder from `before` to `after`,
/// agrees with the step `expected`; after a success the builder invariant
/// holds, and after a failure the builder is left as it was.
pub open spec fn outcome(
    expected: Result<BuilderView, ErrorKind>,
    r: Result<(), ErrorKind>,
    before: BuilderView,
    after: BuilderView,
) -> bool {
    match r {
        Ok(_) => expected == Ok::<BuilderView, ErrorKind>(after) && builder_ok(after),
        Err(k) => expected == Err::<BuilderView, ErrorKind>(k) && after == before,
    }
}

proof fn lemma_views_update(ts: Seq<Track>, i: int, t: Track)
    requires
        0 <= i < ts.len(),
    ensures
        track_views(ts.update(i, t)) == track_views(ts).update(i, t@),
{
    assert(track_views(ts.update(i, t)) =~= track_views(ts).update(i, t@));
}

proof fn lemma_views_push(ts: Seq<Track>, t: Track)
    ensures
        track_views(ts.push(t)) == track_views(ts).push(t@),
{
    assert(track_views(ts.push(t)) =~= track_views(ts).push(t@));
}

fn track_mode_exec(w: &Vec<char>) -> (r: Option<TrackMode>)
    ensures
        r == track_mode_of(w@),
{
    if is_word(w, "AUDIO") {
        Some(TrackMode::Audio)
    } else if is_word(w, "MODE1/2048") {
        Some(TrackMode::Mode1)
    } else if is_word(w, "MODE1/2352") {
        Some(TrackMode::Mode1Raw)
    } else if is_word(w, "MODE2/2336") {
        Some(TrackMode::Mode2)
    } else if is_word(w, "MODE2/2048") {
        Some(TrackMode::Mode2Form1)
    } else if is_word(w, "MODE2/2324") {
        Some(TrackMode::Mode2Form2)
    } else if is_word(w, "MODE2/2332") {
        Some(TrackMode::Mode2FormMix)
    } else if is_word(w, "MODE2/2352") {
        Some(TrackMode::Mode2Raw)
    } else {
        None
    }
}

fn track_sub_exec(args: &Vec<Vec<char>>) -> (r: Option<Option<TrackSubMode>>)
    ensures
        r == track_sub_of(words(args@)),
{
    if args.len() < 3 {
        Some(None)
    } else if is_word(&args[2], "RW") {
        Some(Some(TrackSubMode::RW))
    } else if is_word(&args[2], "RW_RAW") {
        Some(Some(TrackSubMode::RW_RAW))
    } else {
        None
    }
}

fn pack_slot_exec(w: &Vec<char>) -> (r: Option<usize>)
    ensures
        match r {
            Some(k) => pack_slot(w@) == Some(k as int) && k < PACK_COUNT,
            None => pack_slot(w@) is None,
        },
{
    if is_word(w, "TITLE") {
        Some(0)
    } else if is_word(w, "PERFORMER") {
        Some(1)
    } else if is_word(w, "SONGWRITER") {
        Some(2)
    } else if is_word(w, "COMPOSER") {
        Some(3)
    } else if is_word(w, "ARRANGER") {
        Some(4)
    } else if is_word(w, "MESSAGE") {
        Some(5)
    } else if is_word(w, "DISC_ID") {
        Some(6)
    } else if is_word(w, "GENRE") {
        Some(7)
    } else if is_word(w, "TOC_INFO1") {
        Some(8)
    } else if is_word(w, "TOC_INFO2") {
        Some(9)
    } else if is_word(w, "UPC_EAN") {
        Some(14)
    } else if is_word(w, "SIZE_INFO") {
        Some(15)
    } else {
        None
    }
}

fn add_flag_exec(f: FlagSet, w: &Vec<char>) -> (r: FlagSet)
    ensures
        r == add_flag(f, w@),
{
    if is_word(w, "PRE") {
        FlagSet { pre_emphasis: true, ..f }
    } else if is_word(w, "DCP") {
        FlagSet { copy_permitted: true, ..f }
    } else if is_word(w, "DATA") {
        FlagSet { data: true, ..f }
    } else if is_word(w, "4CH") {
        FlagSet { four_channel: true, ..f }
    } else if is_word(w, "SCMS") {
        FlagSet { scms: true, ..f }
    } else {
        f
    }
}

fn add_flags_exec(f: FlagSet, ws: &Vec<Vec<char>>) -> (r: FlagSet)
    ensures
        r == add_flags(f, words(ws@)),
{
    let mut acc = f;
    let mut k: usize = 0;
    proof { assert(words(ws@).subrange(0, ws@.len() as int) =~= words(ws@)); }
    while k < ws.len()
        invariant
            k <= ws@.len(),
            add_flags(acc, words(ws@).subrange(k as int, ws@.len() as int)) == add_flags(f, words(ws@)),
        decreases ws@.len() - k,
    {
        let ghost rest = words(ws@).subrange(k as int, ws@.len() as int);
        assert(rest.drop_first() =~= words(ws@).subrange(k + 1, ws@.len() as int));
        acc = add_flag_exec(acc, &ws[k]);
        k = k + 1;
    }
    proof {
        assert(words(ws@).subrange(k as int, ws@.len() as int) =~= Seq::<Seq<char>>::empty());
    }
    acc
}

fn start_exec(t: &Track) -> (r: i64)
    ensures
        r == start_of(t@),
{
    match t.get_index(1) {
        Some(v) => v,
        None => 0,
    }
}

fn begin_exec(t: &Track) -> (r: i64)
    ensures
        r == begin_of(t@),
{
    match t.get_index(0) {
        Some(v) => v,
        None => start_exec(t),
    }
}

fn disc_mode_exec(ts: &Vec<Track>) -> (r: DiscMode)
    ensures
        r == disc_mode_spec(track_views(ts@)),
{
    let ghost vs = track_views(ts@);
    let mut rank: u8 = 0;
    let mut i: usize = 0;
    while i < ts.len()
        invariant
            i <= ts@.len(),
            vs == track_views(ts@),
            rank as nat == max_rank(vs.subrange(0, i as int)),
            rank <= 2,
        decreases ts@.len() - i,
    {
        let m: u8 = match ts[i].get_mode() {
            TrackMode::Audio => 0,
            TrackMode::Mode2Form1 | TrackMode::Mode2Form2 | TrackMode::Mode2FormMix => 2,
            _ => 1,
        };
        proof {
            assert(vs.subrange(0, i + 1).drop_last() =~= vs.subrange(0, i as int));
        }
        if m > rank {
            rank = m;
        }
        i = i + 1;
    }
    proof { assert(vs.subrange(0, i as int) =~= vs); }
    if rank == 0 {
        DiscMode::CD_DA
    } else if rank == 1 {
        DiscMode::CD_ROM
    } else {
        DiscMode::CD_ROM_XA
    }
}

impl CueBuilder {
    /// The builder before any line.
    pub fn new() -> (r: CueBuilder)
        ensures
            r@ == initial_builder(),
            builder_ok(r@),
    {
        let r = CueBuilder {
            scope: Scope::Global,
            file: None,
            catalog: None,
            cdtextfile: None,
            cdtext: CDText::new(),
            rem: REM::new(),
            tracks: Vec::new(),
        };
        assert(r@.tracks =~= Seq::<TrackView>::empty());
        r
    }

    fn on_file(&mut self, args: &Vec<Vec<char>>) -> (r: Result<(), ErrorKind>)
        requires
            builder_ok(old(self)@),
        ensures
            outcome(on_file(old(self)@, words(args@)), r, old(self)@, final(self)@),
    {
        if args.len() != 2 {
            return Err(ErrorKind::Syntax);
        }
        self.scope = Scope::InFile;
        self.file = Some(string_from(&args[0]));
        Ok(())
    }

    fn on_track(&mut self, args: &Vec<Vec<char>>) -> (r: Result<(), ErrorKind>)
        requires
            builder_ok(old(self)@),
        ensures
            outcome(on_track(old(self)@, words(args@)), r, old(self)@, final(self)@),
    {
        if self.scope == Scope::Global || args.len() < 2 || args.len() > 3 {
            return Err(ErrorKind::Syntax);
        }
        let n = parse_number(&args[0], MAX_INDEX);
        let mode = track_mode_exec(&args[1]);
        let sub = track_sub_exec(args);
        match (n, mode, sub) {
            (Some(n), Some(mode), Some(sub)) => {
                if n as usize != self.tracks.len() + 1 {
                    return Err(ErrorKind::Semantic);
                }
                let name = match &self.file {
                    Some(f) => f.clone(),
                    None => String::new(),
                };
                let t = Track::from(name, mode, sub);
                proof { lemma_views_push(self.tracks@, t); }
                self.tracks.push(t);
                self.scope = Scope::InTrack;
                Ok(())
            },
            _ => Err(ErrorKind::Syntax),
        }
    }

    fn on_index(&mut self, args: &Vec<Vec<char>>) -> (r: Result<(), ErrorKind>)
        requires
            builder_ok(old(self)@),
        ensures
            outcome(on_index(old(self)@, words(args@)), r, old(self)@, final(self)@),
    {
        if self.scope != Scope::InTrack || args.len() != 2 {
            return Err(ErrorKind::Syntax);
        }
        let n = parse_number(&args[0], MAX_INDEX);
        let tc = parse_timecode(&args[1]);
        match (n, tc) {
            (Some(n), Some(tc)) => {
                let last = self.tracks.len() - 1;
                assert(self.tracks@[last as int]@ == self@.tracks[last as int]);
                if !self.tracks[last].clear_from(n as usize + 1) {
                    return Err(ErrorKind::Syntax);
                }
                let v = sectors_of(tc) as i64;
                if !self.tracks[last].earlier_at_most(n as usize, v) {
                    return Err(ErrorKind::Semantic);
                }
                let ghost old_tracks = self.tracks@;
                self.tracks[last].set_index(n as usize, v);
                proof { lemma_views_update(old_tracks, last as int, self.tracks@[last as int]); }
                assert(self.tracks@ == old_tracks.update(last as int, self.tracks@[last as int]));
                Ok(())
            },
            _ => Err(ErrorKind::Syntax),
        }
    }

    fn on_gap(&mut self, args: &Vec<Vec<char>>, pre: bool) -> (r: Result<(), ErrorKind>)
        requires
            builder_ok(old(self)@),
        ensures
            outcome(on_gap(old(self)@, words(args@), pre), r, old(self)@, final(self)@),
    {
        if self.scope != Scope::InTrack || args.len() != 1 {
            return Err(ErrorKind::Syntax);
        }
        match parse_timecode(&args[0]) {
            Some(tc) => {
                let last = self.tracks.len() - 1;
                assert(self.tracks@[last as int]@ == self@.tracks[last as int]);
                let v = sectors_of(tc) as i64;
                let ghost old_tracks = self.tracks@;
                if pre {
                    if !self.tracks[last].clear_from(0) {
                        return Err(ErrorKind::Syntax);
                    }
                    self.tracks[last].set_pregap(v);
                } else {
                    self.tracks[last].set_postgap(v);
                }
                proof { lemma_views_update(old_tracks, last as int, self.tracks@[last as int]); }
                assert(self.tracks@ == old_tracks.update(last as int, self.tracks@[last as int]));
                Ok(())
            },
            None => Err(ErrorKind::Syntax),
        }
    }

    fn on_flags(&mut self, args: &Vec<Vec<char>>) -> (r: Result<(), ErrorKind>)
        requires
            builder_ok(old(self)@),
        ensures
            outcome(on_flags(old(self)@, words(args@)), r, old(self)@, final(self)@),
    {
        if self.scope != Scope::InTrack {
            return Err(ErrorKind::Syntax);
        }
        let last = self.tracks.len() - 1;
        assert(self.tracks@[last as int]@ == self@.tracks[last as int]);
        let ghost old_tracks = self.tracks@;
        let mut flags = FlagSet {
            pre_emphasis: self.tracks[last].flag_is_set(crate::track::TrackFlag::PreEmphasis),
            copy_permitted: self.tracks[last].flag_is_set(crate::track::TrackFlag::CopyPermitted),
            data: self.tracks[last].flag_is_set(crate::track::TrackFlag::Data),
            four_channel: self.tracks[last].flag_is_set(crate::track::TrackFlag::FourChannel),
            scms: self.tracks[last].flag_is_set(crate::track::TrackFlag::SCMS),
        };
        assert(flags == self@.tracks[last as int].flags);
        flags = add_flags_exec(flags, args);
        self.tracks[last].set_flags(flags);
        proof { lemma_views_update(old_tracks, last as int, self.tracks@[last as int]); }
        assert(self.tracks@ == old_tracks.update(last as int, self.tracks@[last as int]));
        Ok(())
    }

    fn on_isrc(&mut self, args: &Vec<Vec<char>>) -> (r: Result<(), ErrorKind>)
        requires
            builder_ok(old(self)@),
        ensures
            outcome(on_isrc(old(self)@, words(args@)), r, old(self)@, final(self)@),
    {
        if self.scope != Scope::InTrack || args.len() != 1 {
            return Err(ErrorKind::Syntax);
        }
        let last = self.tracks.len() - 1;
        assert(self.tracks@[last as int]@ == self@.tracks[last as int]);
        let ghost old_tracks = self.tracks@;
        let code = string_from(&args[0]);
        self.tracks[last].set_isrc(code);
        proof { lemma_views_update(old_tracks, last as int, self.tracks@[last as int]); }
        assert(self.tracks@ == old_tracks.update(last as int, self.tracks@[last as int]));
        Ok(())
    }

    fn on_disc_field(&mut self, args: &Vec<Vec<char>>, catalog: bool) -> (r: Result<(), ErrorKind>)
        requires
            builder_ok(old(self)@),
        ensures
            outcome(on_disc_field(old(self)@, words(args@), catalog), r, old(self)@, final(self)@),
    {
        if self.scope != Scope::Global || args.len() != 1 {
            return Err(ErrorKind::Syntax);
        }
        let value = string_from(&args[0]);
        if catalog {
            self.catalog = Some(value);
        } else {
            self.cdtextfile = Some(value);
        }
        Ok(())
    }

    fn on_pack(&mut self, slot: usize, args: &Vec<Vec<char>>) -> (r: Result<(), ErrorKind>)
        requires
            builder_ok(old(self)@),
            slot < PACK_COUNT,
        ensures
            outcome(on_pack(old(self)@, slot as int, words(args@)), r, old(self)@, final(self)@),
    {
        if args.len() != 1 {
            return Err(ErrorKind::Syntax);
        }
        let text = string_from(&args[0]);
        if self.scope == Scope::InTrack {
            let last = self.tracks.len() - 1;
            assert(self.tracks@[last as int]@ == self@.tracks[last as int]);
            let ghost old_tracks = self.tracks@;
            self.tracks[last].set_pack(slot, text);
            proof { lemma_views_update(old_tracks, last as int, self.tracks@[last as int]); }
            assert(self.tracks@ == old_tracks.update(last as int, self.tracks@[last as int]));
        } else {
            self.cdtext.set(slot, text);
        }
        Ok(())
    }

    fn on_rem(&mut self, text: String)
        requires
            builder_ok(old(self)@),
        ensures
            final(self)@ == on_rem(old(self)@, text@),
            builder_ok(final(self)@),
    {
        if self.scope == Scope::InTrack {
            let last = self.tracks.len() - 1;
            assert(self.tracks@[last as int]@ == self@.tracks[last as int]);
            let ghost old_tracks = self.tracks@;
            self.tracks[last].push_rem(text);
            proof { lemma_views_update(old_tracks, last as int, self.tracks@[last as int]); }
            assert(self.tracks@ == old_tracks.update(last as int, self.tracks@[last as int]));
        } else {
            self.rem.push(text);
        }
    }

    /// Applies one directive with its arguments.
    pub fn apply_directive(&mut self, kw: &Vec<char>, args: &Vec<Vec<char>>) -> (r: Result<(), ErrorKind>)
        requires
            builder_ok(old(self)@),
        ensures
            outcome(directive_spec(old(self)@, kw@, words(args@)), r, old(self)@, final(self)@),
    {
        if is_word(kw, "FILE") {
            self.on_file(args)
        } else if is_word(kw, "TRACK") {
            self.on_track(args)
        } else if is_word(kw, "INDEX") {
            self.on_index(args)
        } else if is_word(kw, "PREGAP") {
            self.on_gap(args, true)
        } else if is_word(kw, "POSTGAP") {
            self.on_gap(args, false)
        } else if is_word(kw, "FLAGS") {
            self.on_flags(args)
        } else if is_word(kw, "ISRC") {
            self.on_isrc(args)
        } else if is_word(kw, "CATALOG") {
            self.on_disc_field(args, true)
        } else if is_word(kw, "CDTEXTFILE") {
            self.on_disc_field(args, false)
        } else {
            match pack_slot_exec(kw) {
                Some(slot) => self.on_pack(slot, args),
                None => Ok(()),
            }
        }
    }

    /// Applies one line of a CUE sheet.
    pub fn apply_line(&mut self, line: &Vec<char>) -> (r: Result<(), ErrorKind>)
        requires
            builder_ok(old(self)@),
        ensures
            outcome(line_spec(old(self)@, line@), r, old(self)@, final(self)@),
    {
        let n = line.len();
        let i = skip_blanks_exec(line, 0);
        proof { lemma_skip_blanks_bounds(line@, 0); }
        if i >= n {
            return Ok(());
        }
        match token_at_exec(line, i) {
            None => Err(ErrorKind::Syntax),
            Some((kw, k)) => {
                if is_word(&kw, "REM") {
                    let j = skip_blanks_exec(line, k);
                    proof { lemma_skip_blanks_bounds(line@, k as int); }
                    let text = trim_end_exec(copy_range(line, j, n));
                    self.on_rem(string_from(&text));
                    Ok(())
                } else {
                    match tokenize(line, k) {
                        None => Err(ErrorKind::Syntax),
                        Some(args) => self.apply_directive(&kw, &args),
                    }
                }
            },
        }
    }

    /// The disc once all lines are read.
    pub fn finish(self) -> (r: Result<CD, ErrorKind>)
        requires
            builder_ok(self@),
        ensures
            match r {
                Ok(cd) => finish_spec(self@) == Ok::<DiscView, ErrorKind>(cd@),
                Err(k) => finish_spec(self@) == Err::<DiscView, ErrorKind>(k),
            },
    {
        let ghost b = self@;
        let ghost ts = self@.tracks;
        let n = self.tracks.len();
        if n == 0 {
            return Err(ErrorKind::Semantic);
        }
        let mut i: usize = 0;
        while i < n
            invariant
                n == self.tracks@.len(),
                ts == track_views(self.tracks@),
                i <= n,
                forall|j: int| 0 <= j < i ==> (#[trigger] index_entry(ts[j], 1)) is Some,
            decreases n - i,
        {
            if self.tracks[i].get_index(1).is_none() {
                assert(index_entry(ts[i as int], 1) is None);
                return Err(ErrorKind::Semantic);
            }
            i = i + 1;
        }
        i = 0;
        while i < n
            invariant
                n == self.tracks@.len(),
                ts == track_views(self.tracks@),
                i <= n,
                forall|a: int, c: int| 0 <= a < i && a < c < n ==> #[trigger] starts_ordered(ts, a, c),
            decreases n - i,
        {
            let si = start_exec(&self.tracks[i]);
            let mut j: usize = i + 1;
            while j < n
                invariant
                    n == self.tracks@.len(),
                    ts == track_views(self.tracks@),
                    i < n,
                    i < j <= n,
                    si == start_of(ts[i as int]),
                    forall|a: int, c: int| 0 <= a < i && a < c < n ==> #[trigger] starts_ordered(ts, a, c),
                    forall|c: int| i < c < j ==> #[trigger] starts_ordered(ts, i as int, c),
                decreases n - j,
            {
                if self.tracks[i].same_file(&self.tracks[j]) && start_exec(&self.tracks[j]) < si {
                    assert(!starts_ordered(ts, i as int, j as int));
                    return Err(ErrorKind::Semantic);
                }
                j = j + 1;
            }
            i = i + 1;
        }
        i = 0;
        while i < n
            invariant
                n == self.tracks@.len(),
                ts == track_views(self.tracks@),
                b == self@,
                builder_ok(b),
                i <= n,
                forall|j: int| 0 <= j < n ==> (#[trigger] index_entry(ts[j], 1)) is Some,
                forall|a: int, c: int| 0 <= a < c < n ==> #[trigger] starts_ordered(ts, a, c),
                forall|j: int| 0 <= j < i ==> #[trigger] gap_ok(ts, j),
            decreases n - i,
        {
            if i + 1 < n && self.tracks[i].same_file(&self.tracks[i + 1]) {
                let s = start_exec(&self.tracks[i]);
                let post = self.tracks[i].get_zero_post();
                let next = begin_exec(&self.tracks[i + 1]);
                proof {
                    assert(crate::builder::track_ok(ts[i as int]));
                    assert(ts[i as int].indices[1] is Some);
                }
                if s + post > next {
                    assert(!gap_ok(ts, i as int));
                    return Err(ErrorKind::Semantic);
                }
            }
            i = i + 1;
        }
        let mode = disc_mode_exec(&self.tracks);
        let CueBuilder { scope: _, file: _, catalog, cdtextfile, cdtext, rem, tracks } = self;
        let mut tracks = tracks;
        i = 0;
        while i < n
            invariant
                n == tracks@.len(),
                n == ts.len(),
                builder_ok(b),
                ts == b.tracks,
                i <= n,
                forall|j: int| 0 <= j < n ==> (#[trigger] index_entry(ts[j], 1)) is Some,
                forall|j: int| 0 <= j < n ==> #[trigger] gap_ok(ts, j),
                forall|j: int| 0 <= j < i ==> (#[trigger] tracks@[j])@ == finalized(ts, j),
                forall|j: int| i <= j < n ==> (#[trigger] tracks@[j])@ == ts[j],
            decreases n - i,
        {
            let s = start_exec(&tracks[i]);
            proof {
                assert(crate::builder::track_ok(ts[i as int]));
                assert(ts[i as int].indices[1] is Some);
                assert(gap_ok(ts, i as int));
            }
            let length = if i + 1 < n && tracks[i].same_file(&tracks[i + 1]) {
                proof {
                    assert(crate::builder::track_ok(ts[i + 1]));
                    assert(ts[i + 1].indices[1] is Some);
                }
                begin_exec(&tracks[i + 1]) - s - tracks[i].get_zero_post()
            } else {
                0
            };
            tracks[i].set_bounds(s, length);
            i = i + 1;
        }
        proof {
            assert(track_views(tracks@) =~= Seq::new(n as nat, |j: int| finalized(ts, j)));
        }
        Ok(CD::assemble(mode, catalog, cdtextfile, cdtext, rem, tracks))
    }
}

} // verus!