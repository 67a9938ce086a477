//! Comments (`REM` lines) of the disc or of one track, kept in order.

use vstd::prelude::*;

use crate::cd_text::opt_chars;
use crate::lexer::{chars_of, copy_range, string_from};

verus! {

/// Well-known comment keys that some tools write into `REM` lines.
#[derive(Clone, Copy, Debug, PartialEq, Eq, Structural)]
pub enum RemType {
    Date,
    ReplayGainAlbumGain,
    ReplayGainAlbumPeak,
    ReplayGainTrackGain,
    ReplayGainTrackPeak,
    End,
}

/// The key that a comment of a well-known kind starts with; `End` has none.
pub open spec fn rem_key(kind: RemType) -> Seq<char> {
    match kind {
        RemType::Date => "DATE"@,
        RemType::ReplayGainAlbumGain => "REPLAYGAIN_ALBUM_GAIN"@,
        RemType::ReplayGainAlbumPeak => "REPLAYGAIN_ALBUM_PEAK"@,
        RemType::ReplayGainTrackGain => "REPLAYGAIN_TRACK_GAIN"@,
        RemType::ReplayGainTrackPeak => "REPLAYGAIN_TRACK_PEAK"@,
        RemType::End => Seq::empty(),
    }
}

/// The value that a comment gives for a non-empty `key`: the comment is the
/// key, a space, then the value.
pub open spec fn keyed_value(line: Seq<char>, key: Seq<char>) -> Option<Seq<char>> {
    if key.len() > 0 && line.len() > key.len() && line.subrange(0, key.len() as int) == key
        && line[key.len() as int] == ' ' {
        Some(line.subrange(key.len() as int + 1, line.len() as int))
    } else {
        None
    }
}

/// The value given for `key` by the first comment that gives one.
pub open spec fn first_keyed(lines: Seq<Seq<char>>, key: Seq<char>) -> Option<Seq<char>>
    decreases lines.len(),
{
    if lines.len() == 0 {
        None
    } else {
        match keyed_value(lines[0], key) {
            Some(v) => Some(v),
            None => first_keyed(lines.drop_first(), key),
        }
    }
}

fn rem_key_exec(kind: RemType) -> (r: &'static str)
    ensures
        r@ == rem_key(kind),
{
    match kind {
        RemType::Date => "DATE",
        RemType::ReplayGainAlbumGain => "REPLAYGAIN_ALBUM_GAIN",
        RemType::ReplayGainAlbumPeak => "REPLAYGAIN_ALBUM_PEAK",
        RemType::ReplayGainTrackGain => "REPLAYGAIN_TRACK_GAIN",
        RemType::ReplayGainTrackPeak => "REPLAYGAIN_TRACK_PEAK",
        RemType::End => {
            proof {
                reveal_strlit("");
                assert(""@ =~= Seq::<char>::empty());
            }
            ""
        },
    }
}

fn keyed_value_exec(line: &String, key: &str) -> (r: Option<String>)
    ensures
        opt_chars(r) == keyed_value(line@, key@),
{
    let l = chars_of(line.as_str());
    let k = chars_of(key);
    let kn = k.len();
    let n = l.len();
    if kn == 0 || n <= kn {
        return None;
    }
    let mut i: usize = 0;
    while i < kn
        invariant
            i <= kn < n,
            kn == k@.len(),
            n == l@.len(),
            l@ == line@,
            k@ == key@,
            l@.subrange(0, i as int) == k@.subrange(0, i as int),
        decreases kn - i,
    {
        if l[i] != k[i] {
            assert(l@.subrange(0, kn as int)[i as int] != k@[i as int]);
            return None;
        }
        proof {
            assert(l@.subrange(0, i + 1) =~= l@.subrange(0, i as int).push(l@[i as int]));
            assert(k@.subrange(0, i + 1) =~= k@.subrange(0, i as int).push(k@[i as int]));
        }
        i = i + 1;
    }
    proof { assert(k@.subrange(0, kn as int) =~= k@); }
    if l[kn] != ' ' {
        return None;
    }
    Some(string_from(&copy_range(&l, kn + 1, n)))
}

/// The comments of the disc or of one track, in the order of the sheet,
/// duplicates included.
#[derive(Debug)]
pub struct REM {
    lines: Vec<String>,
}

impl View for REM {
    type V = Seq<Seq<char>>;

    closed spec fn view(&self) -> Seq<Seq<char>> {
        self.lines@.map_values(|s: String| s@)
    }
}

impl REM {
    /// The list that holds `lines`, in order.
    pub fn from(lines: Vec<String>) -> (r: REM)
        ensures
            r@ == lines@.map_values(|s: String| s@),
    {
        REM { lines }
    }

    /// The empty list.
    pub fn new() -> (r: REM)
        ensures
            r@ == Seq::<Seq<char>>::empty(),
    {
        let r = REM { lines: Vec::new() };
        assert(r@ =~= Seq::<Seq<char>>::empty());
        r
    }

    /// Number of comments.
    pub fn len(&self) -> (r: usize)
        ensures
            r == self@.len(),
    {
        self.lines.len()
    }

    /// The comment at position `index`, or `None` past the last one.
    pub fn read(&self, index: usize) -> (r: Option<String>)
        ensures
            match r {
                Some(s) => index < self@.len() && s@ == self@[index as int],
                None => index >= self@.len(),
            },
    {
        if index < self.lines.len() {
            Some(self.lines[index].clone())
        } else {
            None
        }
    }

    /// The value of the first comment of a well-known kind, such as the
    /// `2001` of `DATE 2001`; `None` where no comment gives one.
    pub fn read_type(&self, kind: RemType) -> (r: Option<String>)
        ensures
            opt_chars(r) == first_keyed(self@, rem_key(kind)),
    {
        let key = rem_key_exec(kind);
        let mut i: usize = 0;
        proof { assert(self@.subrange(0, self@.len() as int) =~= self@); }
        while i < self.lines.len()
            invariant
                i <= self@.len(),
                key@ == rem_key(kind),
                first_keyed(self@.subrange(i as int, self@.len() as int), key@)
                    == first_keyed(self@, key@),
            decreases self@.len() - i,
        {
            let ghost rest = self@.subrange(i as int, self@.len() as int);
            assert(rest.drop_first() =~= self@.subrange(i + 1, self@.len() as int));
            assert(rest[0] == self.lines@[i as int]@);
            match keyed_value_exec(&self.lines[i], key) {
                Some(v) => {
                    return Some(v);
                },
                None => {},
            }
            i = i + 1;
        }
        None
    }

    /// Appends a comment at the end.
    pub(crate) fn push(&mut self, line: String)
        ensures
            final(self)@ == old(self)@.push(line@),
    {
        let ghost v = line@;
        self.lines.push(line);
        assert(self@ =~= old(self)@.push(v));
    }
}

} // verus!
