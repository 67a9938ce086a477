//! A whole disc: the result of parsing a CUE sheet.

use vstd::prelude::*;

use crate::builder::{
    builder_ok, gap_keyword, gap_of, initial_builder, lemma_line_gap, lemma_line_keeps_scope,
    lemma_line_scope, lemma_line_slot, lemma_line_track_count, lemma_rem_order, line_keyword,
    line_spec, pack_slot, rem_text, scope_ok, slot_absent, BuilderView, CueBuilder, ErrorKind,
    Scope,
};
use crate::cd_text::{pack_entry, pti_slot, PACK_COUNT, PTI};
use crate::cd_text::{clone_opt, opt_chars, CDText};
use crate::lexer::{chars_of, copy_range, find_char, find_char_exec, lemma_find_char_bounds};
use crate::rem::REM;
use crate::track::{index_entry, Track, TrackMode, TrackView};

verus! {

/// The kind of disc a sheet describes.
#[allow(non_camel_case_types)]
#[derive(Clone, Copy, Debug, PartialEq, Eq, Structural)]
pub enum DiscMode {
    /// Audio only.
    CD_DA,
    /// Data tracks, none in an XA form.
    CD_ROM,
    /// At least one data track in an XA form.
    CD_ROM_XA,
}

/// Why parsing failed, and on which line (counted from 1). Failures found
/// once all lines are read carry line 0.
#[derive(Clone, Copy, Debug, PartialEq, Eq, Structural)]
pub struct ParseError {
    pub kind: ErrorKind,
    pub line: usize,
}

/// What a disc holds, as plain values.
pub struct DiscView {
    pub mode: DiscMode,
    pub catalog: Option<Seq<char>>,
    pub cdtextfile: Option<Seq<char>>,
    pub cdtext: Seq<Option<Seq<char>>>,
    pub rem: Seq<Seq<char>>,
    pub tracks: Seq<TrackView>,
}

/// 0 for audio, 2 for the XA forms, 1 for the other data modes.
pub open spec fn mode_rank(m: TrackMode) -> nat {
    match m {
        TrackMode::Audio => 0,
        TrackMode::Mode2Form1 | TrackMode::Mode2Form2 | TrackMode::Mode2FormMix => 2,
        _ => 1,
    }
}

pub open spec fn max_rank(ts: Seq<TrackView>) -> nat
    decreases ts.len(),
{
    if ts.len() == 0 {
        0
    } else {
        let r = max_rank(ts.drop_last());
        let m = mode_rank(ts.last().mode);
        if r >= m { r } else { m }
    }
}

/// The disc mode implied by the track modes.
pub open spec fn disc_mode_spec(ts: Seq<TrackView>) -> DiscMode {
    let r = max_rank(ts);
    if r == 0 {
        DiscMode::CD_DA
    } else if r == 1 {
        DiscMode::CD_ROM
    } else {
        DiscMode::CD_ROM_XA
    }
}

/// Where a track starts: its index 1.
pub open spec fn start_of(t: TrackView) -> i64 {
    match index_entry(t, 1) {
        Some(v) => v,
        None => 0,
    }
}

/// Where a track's lead-in begins: its index 0, else its index 1.
pub open spec fn begin_of(t: TrackView) -> i64 {
    match index_entry(t, 0) {
        Some(v) => v,
        None => start_of(t),
    }
}

/// Track `i` is followed by a track in the same file.
pub open spec fn followed_in_file(ts: Seq<TrackView>, i: int) -> bool {
    i + 1 < ts.len() && ts[i].filename == ts[i + 1].filename
}

/// Track `i`, with its postgap, ends before the next track of its file begins.
pub open spec fn gap_ok(ts: Seq<TrackView>, i: int) -> bool {
    followed_in_file(ts, i) ==> start_of(ts[i]) + ts[i].postgap <= begin_of(ts[i + 1])
}

/// Tracks `i` and `j` (`i` the earlier) do not start out of order, unless
/// they lie in different files.
pub open spec fn starts_ordered(ts: Seq<TrackView>, i: int, j: int) -> bool {
    ts[i].filename == ts[j].filename ==> start_of(ts[i]) <= start_of(ts[j])
}

/// Length of track `i`: up to the next track of the same file, less the
/// postgap; 0 where no such track bounds it.
pub open spec fn length_of(ts: Seq<TrackView>, i: int) -> i64 {
    if followed_in_file(ts, i) {
        (begin_of(ts[i + 1]) - start_of(ts[i]) - ts[i].postgap) as i64
    } else {
        0
    }
}

/// Track `i` with its start and length filled in.
pub open spec fn finalized(ts: Seq<TrackView>, i: int) -> TrackView {
    TrackView { start: start_of(ts[i]), length: length_of(ts, i), ..ts[i] }
}

/// The disc that a builder holds once all lines are read. It needs a track,
/// index 1 on every track, track starts that never go down among the tracks
/// of one file, and each track, with its postgap, ending no later than the
/// next track of its file begins (so that no length comes out negative).
/// Anything else is a semantic error.
pub open spec fn finish_spec(b: BuilderView) -> Result<DiscView, ErrorKind> {
    let ts = b.tracks;
    if ts.len() == 0 {
        Err(ErrorKind::Semantic)
    } else if exists|i: int| 0 <= i < ts.len() && (#[trigger] index_entry(ts[i], 1)) is None {
        Err(ErrorKind::Semantic)
    } else if exists|i: int, j: int| 0 <= i < j < ts.len() && !#[trigger] starts_ordered(ts, i, j) {
        Err(ErrorKind::Semantic)
    } else if exists|i: int| 0 <= i < ts.len() && !#[trigger] gap_ok(ts, i) {
        Err(ErrorKind::Semantic)
    } else {
        Ok(DiscView {
            mode: disc_mode_spec(ts),
            catalog: b.catalog,
            cdtextfile: b.cdtextfile,
            cdtext: b.cdtext,
            rem: b.rem,
            tracks: Seq::new(ts.len(), |i: int| finalized(ts, i)),
        })
    }
}

/// The lines of `text` from position `pos` on, `done` lines already read,
/// applied to `b` in order.
pub open spec fn run_spec(text: Seq<char>, pos: int, b: BuilderView, done: nat) -> Result<BuilderView, ParseError>
    decreases text.len() - pos,
    when 0 <= pos <= text.len()
{
    let e = find_char(text, pos, '\n');
    match line_spec(b, text.subrange(pos, e)) {
        Err(k) => Err(ParseError { kind: k, line: (done + 1) as usize }),
        Ok(next) => {
            if pos <= e < text.len() {
                run_spec(text, e + 1, next, done + 1)
            } else {
                Ok(next)
            }
        },
    }
}

/// The disc that a CUE sheet describes, or why it describes none.
pub open spec fn parse_spec(text: Seq<char>) -> Result<DiscView, ParseError> {
    match run_spec(text, 0, initial_builder(), 0) {
        Err(e) => Err(e),
        Ok(b) => match finish_spec(b) {
            Ok(d) => Ok(d),
            Err(k) => Err(ParseError { kind: k, line: 0 }),
        },
    }
}

/// The number of lines of `text`, from position `pos` on, whose keyword is
/// `TRACK`.
pub open spec fn track_lines(text: Seq<char>, pos: int) -> nat
    decreases text.len() - pos,
    when 0 <= pos <= text.len()
{
    let e = find_char(text, pos, '\n');
    let here: nat = if line_keyword(text.subrange(pos, e)) == Some("TRACK"@) {
        1
    } else {
        0
    };
    if pos <= e < text.len() {
        here + track_lines(text, e + 1)
    } else {
        here
    }
}

proof fn lemma_run_track_count(text: Seq<char>, pos: int, b: BuilderView, done: nat)
    requires
        0 <= pos <= text.len(),
        crate::builder::scope_ok(b),
        run_spec(text, pos, b, done) is Ok,
    ensures
        run_spec(text, pos, b, done)->Ok_0.tracks.len() == b.tracks.len() + track_lines(text, pos),
    decreases text.len() - pos,
{
    let e = find_char(text, pos, '\n');
    lemma_find_char_bounds(text, pos, '\n');
    let line = text.subrange(pos, e);
    lemma_line_track_count(b, line);
    crate::builder::lemma_line_keeps_scope(b, line);
    let next = line_spec(b, line)->Ok_0;
    if pos <= e < text.len() {
        lemma_run_track_count(text, e + 1, next, done + 1);
    }
}

/// A parsed disc has as many tracks as the sheet has `TRACK` lines.
pub proof fn lemma_track_count(text: Seq<char>)
    requires
        parse_spec(text) is Ok,
    ensures
        parse_spec(text)->Ok_0.tracks.len() == track_lines(text, 0),
{
    lemma_run_track_count(text, 0, initial_builder(), 0);
}

/// A sheet without a `TRACK` line, the empty sheet among them, describes no
/// disc: parsing fails, with a semantic error unless a line fails first.
pub proof fn lemma_no_track_no_disc(text: Seq<char>)
    requires
        track_lines(text, 0) == 0,
    ensures
        parse_spec(text) is Err,
        run_spec(text, 0, initial_builder(), 0) is Ok ==> parse_spec(text) == Err::<DiscView, ParseError>(
            ParseError { kind: ErrorKind::Semantic, line: 0 },
        ),
{
    if run_spec(text, 0, initial_builder(), 0) is Ok {
        lemma_run_track_count(text, 0, initial_builder(), 0);
    }
}

/// In a parsed disc, a track never starts before an earlier track of the
/// same file.
pub proof fn lemma_starts_in_file_order(text: Seq<char>)
    requires
        parse_spec(text) is Ok,
    ensures
        ({
            let d = parse_spec(text)->Ok_0;
            forall|i: int, j: int| 0 <= i < j < d.tracks.len()
                && (#[trigger] d.tracks[i]).filename == (#[trigger] d.tracks[j]).filename
                ==> d.tracks[i].start <= d.tracks[j].start
        }),
{
    let b = run_spec(text, 0, initial_builder(), 0)->Ok_0;
    let ts = b.tracks;
    let d = parse_spec(text)->Ok_0;
    assert(finish_spec(b) == Ok::<DiscView, ErrorKind>(d));
    assert forall|i: int, j: int| 0 <= i < j < d.tracks.len()
        && (#[trigger] d.tracks[i]).filename == (#[trigger] d.tracks[j]).filename
        implies d.tracks[i].start <= d.tracks[j].start by {
        assert(starts_ordered(ts, i, j));
        assert(d.tracks[i] == finalized(ts, i));
        assert(d.tracks[j] == finalized(ts, j));
    }
}

/// Whether a line with keyword `kw` stands among the lines of track `k + 1`
/// (those after its `TRACK` line and before the next `TRACK` line), reading
/// from position `pos` with `seen` `TRACK` lines read before it.
pub open spec fn keyword_in_track(text: Seq<char>, pos: int, seen: nat, k: nat, kw: Seq<char>) -> bool
    decreases text.len() - pos,
    when 0 <= pos <= text.len()
{
    let e = find_char(text, pos, '\n');
    let key = line_keyword(text.subrange(pos, e));
    let here = key == Some(kw) && seen == k + 1;
    let next_seen: nat = if key == Some("TRACK"@) {
        seen + 1
    } else {
        seen
    };
    if pos <= e < text.len() {
        here || keyword_in_track(text, e + 1, next_seen, k, kw)
    } else {
        here
    }
}

proof fn lemma_run_gap(text: Seq<char>, pos: int, b: BuilderView, done: nat, k: nat, pre: bool)
    requires
        0 <= pos <= text.len(),
        scope_ok(b),
        run_spec(text, pos, b, done) is Ok,
        !keyword_in_track(text, pos, b.tracks.len(), k, gap_keyword(pre)),
        k < b.tracks.len() ==> gap_of(b.tracks[k as int], pre) == 0,
    ensures
        ({
            let r = run_spec(text, pos, b, done)->Ok_0;
            k < r.tracks.len() ==> gap_of(r.tracks[k as int], pre) == 0
        }),
    decreases text.len() - pos,
{
    let e = find_char(text, pos, '\n');
    lemma_find_char_bounds(text, pos, '\n');
    let line = text.subrange(pos, e);
    lemma_line_gap(b, line, k as int, pre);
    lemma_line_track_count(b, line);
    lemma_line_keeps_scope(b, line);
    let next = line_spec(b, line)->Ok_0;
    if pos <= e < text.len() {
        lemma_run_gap(text, e + 1, next, done + 1, k, pre);
    }
}

/// A track among whose lines no `PREGAP` line stands reports a pregap of 0;
/// one among whose lines no `POSTGAP` line stands, a postgap of 0.
pub proof fn lemma_gap_defaults(text: Seq<char>, k: nat, pre: bool)
    requires
        parse_spec(text) is Ok,
        k < parse_spec(text)->Ok_0.tracks.len(),
        !keyword_in_track(text, 0, 0, k, gap_keyword(pre)),
    ensures
        gap_of(parse_spec(text)->Ok_0.tracks[k as int], pre) == 0,
{
    let b = run_spec(text, 0, initial_builder(), 0)->Ok_0;
    lemma_run_gap(text, 0, initial_builder(), 0, k, pre);
    assert(parse_spec(text)->Ok_0.tracks[k as int] == finalized(b.tracks, k as int));
}

/// Whether a line from position `pos` on has a keyword naming CD-TEXT slot `slot`.
pub open spec fn names_slot(text: Seq<char>, pos: int, slot: int) -> bool
    decreases text.len() - pos,
    when 0 <= pos <= text.len()
{
    let e = find_char(text, pos, '\n');
    let here = line_keyword(text.subrange(pos, e)) matches Some(kw) && pack_slot(kw) == Some(slot);
    if pos <= e < text.len() {
        here || names_slot(text, e + 1, slot)
    } else {
        here
    }
}

proof fn lemma_run_slot(text: Seq<char>, pos: int, b: BuilderView, done: nat, slot: int)
    requires
        0 <= pos <= text.len(),
        0 <= slot < PACK_COUNT,
        scope_ok(b),
        slot_absent(b, slot),
        run_spec(text, pos, b, done) is Ok,
        !names_slot(text, pos, slot),
    ensures
        slot_absent(run_spec(text, pos, b, done)->Ok_0, slot),
    decreases text.len() - pos,
{
    let e = find_char(text, pos, '\n');
    lemma_find_char_bounds(text, pos, '\n');
    let line = text.subrange(pos, e);
    lemma_line_slot(b, line, slot);
    lemma_line_keeps_scope(b, line);
    let next = line_spec(b, line)->Ok_0;
    if pos <= e < text.len() {
        lemma_run_slot(text, e + 1, next, done + 1, slot);
    }
}

/// A pack type (`End` marks the end of the list and is none) that no line
/// of the sheet names is absent, not empty, in the CD-TEXT of the disc and
/// of every track.
pub proof fn lemma_absent_packs(text: Seq<char>, p: PTI)
    requires
        parse_spec(text) is Ok,
        p != PTI::End,
        !names_slot(text, 0, pti_slot(p)),
    ensures
        ({
            let d = parse_spec(text)->Ok_0;
            &&& pack_entry(d.cdtext, p) is None
            &&& forall|i: int| 0 <= i < d.tracks.len() ==> pack_entry(#[trigger] d.tracks[i].cdtext, p) is None
        }),
{
    let b = run_spec(text, 0, initial_builder(), 0)->Ok_0;
    let d = parse_spec(text)->Ok_0;
    if pti_slot(p) < PACK_COUNT {
        assert(slot_absent(initial_builder(), pti_slot(p)));
        assert(finish_spec(b) == Ok::<DiscView, ErrorKind>(d));
        lemma_run_slot(text, 0, initial_builder(), 0, pti_slot(p));
        assert forall|i: int| 0 <= i < d.tracks.len() implies pack_entry(#[trigger] d.tracks[i].cdtext, p) is None by {
            assert(d.tracks[i] == finalized(b.tracks, i));
        }
    }
}

/// The texts of the `REM` lines from position `pos` on that stand outside
/// any track, in order; `in_track` tells whether a track is open at `pos`.
pub open spec fn disc_rems(text: Seq<char>, pos: int, in_track: bool) -> Seq<Seq<char>>
    decreases text.len() - pos,
    when 0 <= pos <= text.len()
{
    let e = find_char(text, pos, '\n');
    let line = text.subrange(pos, e);
    let key = line_keyword(line);
    let here = if key == Some("REM"@) && !in_track {
        seq![rem_text(line)]
    } else {
        Seq::empty()
    };
    let next_in = key == Some("TRACK"@) || (key != Some("FILE"@) && in_track);
    if pos <= e < text.len() {
        here + disc_rems(text, e + 1, next_in)
    } else {
        here
    }
}

proof fn lemma_run_rems(text: Seq<char>, pos: int, b: BuilderView, done: nat)
    requires
        0 <= pos <= text.len(),
        scope_ok(b),
        run_spec(text, pos, b, done) is Ok,
    ensures
        run_spec(text, pos, b, done)->Ok_0.rem == b.rem + disc_rems(text, pos, b.scope == Scope::InTrack),
    decreases text.len() - pos,
{
    let e = find_char(text, pos, '\n');
    lemma_find_char_bounds(text, pos, '\n');
    let line = text.subrange(pos, e);
    lemma_rem_order(b, line);
    lemma_line_scope(b, line);
    lemma_line_keeps_scope(b, line);
    let next = line_spec(b, line)->Ok_0;
    let in_track = b.scope == Scope::InTrack;
    let key = line_keyword(line);
    let here = if key == Some("REM"@) && !in_track {
        seq![rem_text(line)]
    } else {
        Seq::empty()
    };
    assert(next.rem == b.rem + here);
    if pos <= e < text.len() {
        lemma_run_rems(text, e + 1, next, done + 1);
        assert(b.rem + here + disc_rems(text, e + 1, next.scope == Scope::InTrack)
            =~= b.rem + (here + disc_rems(text, e + 1, next.scope == Scope::InTrack)));
    } else {
        assert(b.rem + here =~= b.rem + disc_rems(text, pos, in_track));
    }
}

/// The disc's comments are the texts of the sheet's `REM` lines outside any
/// track, in their order, duplicates kept.
pub proof fn lemma_disc_rem_order(text: Seq<char>)
    requires
        parse_spec(text) is Ok,
    ensures
        parse_spec(text)->Ok_0.rem == disc_rems(text, 0, false),
{
    lemma_run_rems(text, 0, initial_builder(), 0);
    assert(Seq::<Seq<char>>::empty() + disc_rems(text, 0, false) =~= disc_rems(text, 0, false));
}

/// Finishing a disc keeps each track's pregap and postgap.
pub proof fn lemma_finish_keeps_gaps(b: BuilderView)
    requires
        finish_spec(b) is Ok,
    ensures
        ({
            let d = finish_spec(b)->Ok_0;
            &&& d.tracks.len() == b.tracks.len()
            &&& forall|i: int| 0 <= i < b.tracks.len() ==> {
                &&& (#[trigger] d.tracks[i]).pregap == b.tracks[i].pregap
                &&& d.tracks[i].postgap == b.tracks[i].postgap
            }
        }),
{
}

/// A disc described by a CUE sheet. It has from 1 to 99 tracks, numbered
/// from 1.
#[derive(Debug)]
pub struct CD {
    mode: DiscMode,
    catalog: Option<String>,
    cdtextfile: Option<String>,
    cdtext: CDText,
    rem: REM,
    tracks: Vec<Track>,
}

impl View for CD {
    type V = DiscView;

    closed spec fn view(&self) -> DiscView {
        DiscView {
            mode: self.mode,
            catalog: opt_chars(self.catalog),
            cdtextfile: opt_chars(self.cdtextfile),
            cdtext: self.cdtext@,
            rem: self.rem@,
            tracks: crate::builder::track_views(self.tracks@),
        }
    }
}

impl CD {
    #[verifier::type_invariant]
    closed spec fn inv(&self) -> bool {
        1 <= self.tracks@.len() <= crate::builder::MAX_TRACKS
    }

    pub(crate) fn assemble(
        mode: DiscMode,
        catalog: Option<String>,
        cdtextfile: Option<String>,
        cdtext: CDText,
        rem: REM,
        tracks: Vec<Track>,
    ) -> (r: CD)
        requires
            1 <= tracks@.len() <= crate::builder::MAX_TRACKS,
        ensures
            r@ == (DiscView {
                mode,
                catalog: opt_chars(catalog),
                cdtextfile: opt_chars(cdtextfile),
                cdtext: cdtext@,
                rem: rem@,
                tracks: crate::builder::track_views(tracks@),
            }),
    {
        CD { mode, catalog, cdtextfile, cdtext, rem, tracks }
    }

    /// Parses the text of a CUE sheet.
    pub fn parse(string: String) -> (r: Result<CD, ParseError>)
        ensures
            match r {
                Ok(cd) => parse_spec(string@) == Ok::<DiscView, ParseError>(cd@),
                Err(e) => parse_spec(string@) == Err::<DiscView, ParseError>(e),
            },
    {
        let text = chars_of(string.as_str());
        let n = text.len();
        let mut b = CueBuilder::new();
        let mut pos: usize = 0;
        let mut done: usize = 0;
        loop
            invariant_except_break
                run_spec(text@, 0, initial_builder(), 0) == run_spec(text@, pos as int, b@, done as nat),
            invariant
                pos <= n == text@.len(),
                text@ == string@,
                done <= pos,
                builder_ok(b@),
            ensures
                run_spec(text@, 0, initial_builder(), 0) == Ok::<BuilderView, ParseError>(b@),
                builder_ok(b@),
            decreases n - pos,
        {
            let e = find_char_exec(&text, pos, '\n');
            proof { lemma_find_char_bounds(text@, pos as int, '\n'); }
            let line = copy_range(&text, pos, e);
            let ghost before = b@;
            match b.apply_line(&line) {
                Err(k) => {
                    proof {
                        if e == pos {
                            assert(line@.len() == 0);
                        }
                        assert(run_spec(text@, pos as int, before, done as nat)
                            == Err::<BuilderView, ParseError>(ParseError { kind: k, line: (done + 1) as usize }));
                    }
                    return Err(ParseError { kind: k, line: done + 1 });
                },
                Ok(()) => {},
            }
            if e < n {
                pos = e + 1;
                done = done + 1;
            } else {
                assert(run_spec(text@, pos as int, before, done as nat) == Ok::<BuilderView, ParseError>(b@));
                break;
            }
        }
        match b.finish() {
            Ok(cd) => Ok(cd),
            Err(k) => Err(ParseError { kind: k, line: 0 }),
        }
    }

    /// The kind of disc.
    pub fn get_mode(&self) -> (r: DiscMode)
        ensures
            r == self@.mode,
    {
        self.mode
    }

    /// The path of the sidecar file holding CD-TEXT data, if the sheet names one.
    pub fn get_cdtextfile(&self) -> (r: Option<String>)
        ensures
            opt_chars(r) == self@.cdtextfile,
    {
        clone_opt(&self.cdtextfile)
    }

    /// The disc's catalog number, if the sheet gives one.
    pub fn get_catalog(&self) -> (r: Option<String>)
        ensures
            opt_chars(r) == self@.catalog,
    {
        clone_opt(&self.catalog)
    }

    /// The number of tracks, at least 1.
    pub fn get_track_count(&self) -> (r: isize)
        ensures
            r == self@.tracks.len(),
            1 <= r <= crate::builder::MAX_TRACKS,
    {
        proof { use_type_invariant(self); }
        self.tracks.len() as isize
    }

    /// The track numbered `index`, counting from 1; an error for any number
    /// outside `1..=get_track_count()`.
    pub fn get_track(&self, index: isize) -> (r: Result<&Track, String>)
        ensures
            match r {
                Ok(t) => 1 <= index <= self@.tracks.len() && t@ == self@.tracks[index - 1],
                Err(_) => !(1 <= index <= self@.tracks.len()),
            },
    {
        proof { use_type_invariant(self); }
        if 1 <= index && index <= self.tracks.len() as isize {
            Ok(&self.tracks[(index - 1) as usize])
        } else {
            Err(String::from_str("track number out of range"))
        }
    }

    /// All tracks, in order.
    pub fn tracks(&self) -> (r: &Vec<Track>)
        ensures
            crate::builder::track_views(r@) == self@.tracks,
    {
        &self.tracks
    }

    /// The disc's CD-TEXT data.
    pub fn get_cdtext(&self) -> (r: &CDText)
        ensures
            r@ == self@.cdtext,
    {
        &self.cdtext
    }

    /// The disc's comments.
    pub fn get_rem(&self) -> (r: &REM)
        ensures
            r@ == self@.rem,
    {
        &self.rem
    }
}

} // verus!