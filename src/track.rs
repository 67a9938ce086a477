//! Tracks of a disc: where each lies, its format, flags, gaps, indices and
//! its own CD-TEXT and comments.

use vstd::prelude::*;

use crate::cd_text::{no_packs, opt_chars, clone_opt, CDText, PACK_COUNT};
use crate::rem::REM;

verus! {

/// The data format of a track, each data mode with its sector payload size.
#[derive(Clone, Copy, Debug, PartialEq, Eq, Structural)]
pub enum TrackMode {
    Audio,
    /// 2048-byte data without ECC
    Mode1,
    /// 2048-byte data with ECC
    Mode1Raw,
    /// 2336-byte data without ECC
    Mode2,
    /// 2048-byte data (CD-ROM XA)
    Mode2Form1,
    /// 2324-byte data (CD-ROM XA)
    Mode2Form2,
    /// 2332-byte data (CD-ROM XA)
    Mode2FormMix,
    /// 2336-byte data with ECC
    Mode2Raw,
}

/// The format of subchannel data given with a track.
#[allow(non_camel_case_types)]
#[derive(Clone, Copy, Debug, PartialEq, Eq, Structural)]
pub enum TrackSubMode {
    RW,
    RW_RAW,
}

/// A track flag to test for; `NoFlag` matches no flag, `Any` matches any set flag.
#[derive(Clone, Copy, Debug, PartialEq, Eq, Structural)]
pub enum TrackFlag {
    NoFlag,
    PreEmphasis,
    CopyPermitted,
    Data,
    FourChannel,
    SCMS,
    Any,
}

/// The flags set on a track.
#[derive(Clone, Copy, Debug, PartialEq, Eq, Structural)]
pub struct FlagSet {
    pub pre_emphasis: bool,
    pub copy_permitted: bool,
    pub data: bool,
    pub four_channel: bool,
    pub scms: bool,
}

impl FlagSet {
    /// Whether the set matches `flag`.
    pub open spec fn has(self, flag: TrackFlag) -> bool {
        match flag {
            TrackFlag::NoFlag => false,
            TrackFlag::PreEmphasis => self.pre_emphasis,
            TrackFlag::CopyPermitted => self.copy_permitted,
            TrackFlag::Data => self.data,
            TrackFlag::FourChannel => self.four_channel,
            TrackFlag::SCMS => self.scms,
            TrackFlag::Any => self.pre_emphasis || self.copy_permitted || self.data
                || self.four_channel || self.scms,
        }
    }

    /// The set with no flag.
    pub open spec fn none() -> FlagSet {
        FlagSet {
            pre_emphasis: false,
            copy_permitted: false,
            data: false,
            four_channel: false,
            scms: false,
        }
    }

    /// Whether the set matches `flag`.
    pub fn contains(&self, flag: TrackFlag) -> (r: bool)
        ensures
            r == self.has(flag),
    {
        match flag {
            TrackFlag::NoFlag => false,
            TrackFlag::PreEmphasis => self.pre_emphasis,
            TrackFlag::CopyPermitted => self.copy_permitted,
            TrackFlag::Data => self.data,
            TrackFlag::FourChannel => self.four_channel,
            TrackFlag::SCMS => self.scms,
            TrackFlag::Any => self.pre_emphasis || self.copy_permitted || self.data
                || self.four_channel || self.scms,
        }
    }
}

/// Number of index slots of a track (index numbers 0 to 99).
pub const INDEX_SLOTS: usize = 100;

/// What a track holds, as plain values.
pub struct TrackView {
    pub filename: Seq<char>,
    pub mode: TrackMode,
    pub sub_mode: Option<TrackSubMode>,
    pub flags: FlagSet,
    pub pregap: i64,
    pub postgap: i64,
    pub isrc: Option<Seq<char>>,
    pub indices: Seq<Option<i64>>,
    pub start: i64,
    pub length: i64,
    pub cdtext: Seq<Option<Seq<char>>>,
    pub rem: Seq<Seq<char>>,
}

/// A track just opened by a `TRACK` line: no flag, gap, code or index yet.
pub open spec fn fresh_track(
    filename: Seq<char>,
    mode: TrackMode,
    sub_mode: Option<TrackSubMode>,
) -> TrackView {
    TrackView {
        filename,
        mode,
        sub_mode,
        flags: FlagSet::none(),
        pregap: 0,
        postgap: 0,
        isrc: None,
        indices: Seq::new(INDEX_SLOTS as nat, |i: int| None),
        start: 0,
        length: 0,
        cdtext: no_packs(),
        rem: Seq::empty(),
    }
}

/// The sector recorded for index number `n`, if any.
pub open spec fn index_entry(t: TrackView, n: int) -> Option<i64> {
    if 0 <= n < t.indices.len() {
        t.indices[n]
    } else {
        None
    }
}

/// No index numbered `from` or above is recorded.
pub open spec fn indices_clear_from(t: TrackView, from: int) -> bool {
    forall|k: int| from <= k < t.indices.len() ==> #[trigger] t.indices[k] is None
}

/// Every index numbered below `n` that is recorded lies at or before sector `v`.
pub open spec fn indices_at_most(t: TrackView, n: int, v: i64) -> bool {
    forall|k: int| 0 <= k < n && k < t.indices.len() && (#[trigger] t.indices[k]) is Some
        ==> t.indices[k]->0 <= v
}

/// A single track of a disc.
#[derive(Debug)]
pub struct Track {
    filename: String,
    mode: TrackMode,
    sub_mode: Option<TrackSubMode>,
    flags: FlagSet,
    pregap: i64,
    postgap: i64,
    isrc: Option<String>,
    indices: Vec<Option<i64>>,
    start: i64,
    length: i64,
    cdtext: CDText,
    rem: REM,
}

impl View for Track {
    type V = TrackView;

    closed spec fn view(&self) -> TrackView {
        TrackView {
            filename: self.filename@,
            mode: self.mode,
            sub_mode: self.sub_mode,
            flags: self.flags,
            pregap: self.pregap,
            postgap: self.postgap,
            isrc: opt_chars(self.isrc),
            indices: self.indices@,
            start: self.start,
            length: self.length,
            cdtext: self.cdtext@,
            rem: self.rem@,
        }
    }
}

impl Track {
    /// Index slots and CD-TEXT slots have their full counts.
    pub open spec fn wf(&self) -> bool {
        &&& self@.indices.len() == INDEX_SLOTS
        &&& self@.cdtext.len() == PACK_COUNT
    }

    /// A track opened in file `filename` with the given format.
    pub fn from(filename: String, mode: TrackMode, sub_mode: Option<TrackSubMode>) -> (r: Track)
        ensures
            r@ == fresh_track(filename@, mode, sub_mode),
            r.wf(),
    {
        let mut indices: Vec<Option<i64>> = Vec::new();
        while indices.len() < INDEX_SLOTS
            invariant
                indices@.len() <= INDEX_SLOTS,
                forall|k: int| 0 <= k < indices@.len() ==> #[trigger] indices@[k] is None,
            decreases INDEX_SLOTS - indices@.len(),
        {
            indices.push(None);
        }
        let r = Track {
            filename,
            mode,
            sub_mode,
            flags: FlagSet {
                pre_emphasis: false,
                copy_permitted: false,
                data: false,
                four_channel: false,
                scms: false,
            },
            pregap: 0,
            postgap: 0,
            isrc: None,
            indices,
            start: 0,
            length: 0,
            cdtext: CDText::new(),
            rem: REM::new(),
        };
        assert(r@.indices =~= fresh_track(r@.filename, mode, sub_mode).indices);
        assert(r@ =~= fresh_track(r@.filename, mode, sub_mode));
        r
    }

    /// The file that holds the track's data.
    pub fn get_filename(&self) -> (r: String)
        ensures
            r@ == self@.filename,
    {
        self.filename.clone()
    }

    /// The absolute sector of index 1, where the track starts.
    pub fn get_start(&self) -> (r: i64)
        ensures
            r == self@.start,
    {
        self.start
    }

    /// The track's length in sectors; 0 where nothing bounds it.
    pub fn get_length(&self) -> (r: i64)
        ensures
            r == self@.length,
    {
        self.length
    }

    pub fn get_mode(&self) -> (r: TrackMode)
        ensures
            r == self@.mode,
    {
        self.mode
    }

    pub fn get_sub_mode(&self) -> (r: Option<TrackSubMode>)
        ensures
            r == self@.sub_mode,
    {
        self.sub_mode
    }

    /// Whether the track's flags match `flag`.
    pub fn flag_is_set(&self, flag: TrackFlag) -> (r: bool)
        ensures
            r == self@.flags.has(flag),
    {
        self.flags.contains(flag)
    }

    /// The pregap length in sectors.
    pub fn get_zero_pre(&self) -> (r: i64)
        ensures
            r == self@.pregap,
    {
        self.pregap
    }

    /// The postgap length in sectors.
    pub fn get_zero_post(&self) -> (r: i64)
        ensures
            r == self@.postgap,
    {
        self.postgap
    }

    pub fn get_isrc(&self) -> (r: Option<String>)
        ensures
            opt_chars(r) == self@.isrc,
    {
        clone_opt(&self.isrc)
    }

    /// The absolute sector of index number `index`, if the sheet gave one.
    pub fn get_index(&self, index: isize) -> (r: Option<i64>)
        ensures
            r == index_entry(self@, index as int),
    {
        if 0 <= index && (index as usize) < self.indices.len() {
            self.indices[index as usize]
        } else {
            None
        }
    }

    pub fn get_cdtext(&self) -> (r: &CDText)
        ensures
            r@ == self@.cdtext,
    {
        &self.cdtext
    }

    pub fn get_rem(&self) -> (r: &REM)
        ensures
            r@ == self@.rem,
    {
        &self.rem
    }

    /// Whether no index numbered `from` or above is recorded.
    pub fn clear_from(&self, from: usize) -> (r: bool)
        ensures
            r == indices_clear_from(self@, from as int),
    {
        let mut k = from;
        while k < self.indices.len()
            invariant
                from <= k,
                forall|j: int| from <= j < k && j < self@.indices.len() ==> #[trigger] self@.indices[j] is None,
            decreases self@.indices.len() - k,
        {
            if self.indices[k].is_some() {
                return false;
            }
            k = k + 1;
        }
        true
    }

    /// Whether both tracks lie in the same file.
    pub fn same_file(&self, other: &Track) -> (r: bool)
        ensures
            r == (self@.filename == other@.filename),
    {
        self.filename == other.filename
    }

    /// Whether every index numbered below `n` that is recorded lies at or
    /// before sector `v`.
    pub fn earlier_at_most(&self, n: usize, v: i64) -> (r: bool)
        ensures
            r == indices_at_most(self@, n as int, v),
    {
        let mut k: usize = 0;
        while k < n && k < self.indices.len()
            invariant
                forall|j: int| 0 <= j < k && j < n && j < self@.indices.len()
                    && (#[trigger] self@.indices[j]) is Some ==> self@.indices[j]->0 <= v,
            decreases self@.indices.len() - k,
        {
            match self.indices[k] {
                Some(s) => {
                    if s > v {
                        return false;
                    }
                },
                None => {},
            }
            k = k + 1;
        }
        true
    }

    pub(crate) fn set_flags(&mut self, flags: FlagSet)
        ensures
            final(self)@ == (TrackView { flags, ..old(self)@ }),
    {
        self.flags = flags;
    }

    pub(crate) fn set_pregap(&mut self, sectors: i64)
        ensures
            final(self)@ == (TrackView { pregap: sectors, ..old(self)@ }),
    {
        self.pregap = sectors;
    }

    pub(crate) fn set_postgap(&mut self, sectors: i64)
        ensures
            final(self)@ == (TrackView { postgap: sectors, ..old(self)@ }),
    {
        self.postgap = sectors;
    }

    pub(crate) fn set_isrc(&mut self, code: String)
        ensures
            final(self)@ == (TrackView { isrc: Some(code@), ..old(self)@ }),
    {
        self.isrc = Some(code);
    }

    pub(crate) fn set_index(&mut self, n: usize, sector: i64)
        requires
            n < old(self)@.indices.len(),
        ensures
            final(self)@ == (TrackView {
                indices: old(self)@.indices.update(n as int, Some(sector)),
                ..old(self)@
            }),
    {
        self.indices.set(n, Some(sector));
    }

    pub(crate) fn set_pack(&mut self, slot: usize, text: String)
        requires
            slot < PACK_COUNT,
        ensures
            final(self)@ == (TrackView {
                cdtext: old(self)@.cdtext.update(slot as int, Some(text@)),
                ..old(self)@
            }),
    {
        self.cdtext.set(slot, text);
    }

    pub(crate) fn push_rem(&mut self, line: String)
        ensures
            final(self)@ == (TrackView { rem: old(self)@.rem.push(line@), ..old(self)@ }),
    {
        self.rem.push(line);
    }

    pub(crate) fn set_bounds(&mut self, start: i64, length: i64)
        ensures
            final(self)@ == (TrackView { start, length, ..old(self)@ }),
    {
        self.start = start;
        self.length = length;
    }
}

} // verus!
