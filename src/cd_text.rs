//! CD-TEXT packs: disc-embedded text such as titles and performers, kept
//! per pack type, for the disc or for one track.

use vstd::prelude::*;

verus! {

/// A CD-TEXT pack type.
#[allow(non_camel_case_types)]
#[derive(Clone, Copy, Debug, PartialEq, Eq, Structural)]
pub enum PTI {
    Title,
    Performer,
    Songwriter,
    Composer,
    Arranger,
    Message,
    DiscID,
    Genre,
    TOCInfo1,
    TOCInfo2,
    Reserved1,
    Reserved2,
    Reserved3,
    Reserved4,
    UPC_ISRC,
    SizeInfo,
    End,
}

/// Number of pack types that hold text (all but `End`).
pub const PACK_COUNT: usize = 16;

/// The slot of a pack type; `End` has none and maps past the last slot.
pub open spec fn pti_slot(p: PTI) -> int {
    match p {
        PTI::Title => 0,
        PTI::Performer => 1,
        PTI::Songwriter => 2,
        PTI::Composer => 3,
        PTI::Arranger => 4,
        PTI::Message => 5,
        PTI::DiscID => 6,
        PTI::Genre => 7,
        PTI::TOCInfo1 => 8,
        PTI::TOCInfo2 => 9,
        PTI::Reserved1 => 10,
        PTI::Reserved2 => 11,
        PTI::Reserved3 => 12,
        PTI::Reserved4 => 13,
        PTI::UPC_ISRC => 14,
        PTI::SizeInfo => 15,
        PTI::End => 16,
    }
}

fn pti_index(p: PTI) -> (r: usize)
    ensures
        r as int == pti_slot(p),
{
    match p {
        PTI::Title => 0,
        PTI::Performer => 1,
        PTI::Songwriter => 2,
        PTI::Composer => 3,
        PTI::Arranger => 4,
        PTI::Message => 5,
        PTI::DiscID => 6,
        PTI::Genre => 7,
        PTI::TOCInfo1 => 8,
        PTI::TOCInfo2 => 9,
        PTI::Reserved1 => 10,
        PTI::Reserved2 => 11,
        PTI::Reserved3 => 12,
        PTI::Reserved4 => 13,
        PTI::UPC_ISRC => 14,
        PTI::SizeInfo => 15,
        PTI::End => 16,
    }
}

/// The characters of an optional string.
pub open spec fn opt_chars(o: Option<String>) -> Option<Seq<char>> {
    match o {
        Some(s) => Some(s@),
        None => None,
    }
}

/// A copy of an optional string.
pub fn clone_opt(o: &Option<String>) -> (r: Option<String>)
    ensures
        opt_chars(r) == opt_chars(*o),
{
    match o {
        Some(s) => Some(s.clone()),
        None => None,
    }
}

/// The entry of a pack type in a pack table: absent for `End`.
pub open spec fn pack_entry(packs: Seq<Option<Seq<char>>>, p: PTI) -> Option<Seq<char>> {
    if pti_slot(p) < packs.len() {
        packs[pti_slot(p)]
    } else {
        None
    }
}

/// The table with no entries.
pub open spec fn no_packs() -> Seq<Option<Seq<char>>> {
    Seq::new(PACK_COUNT as nat, |i: int| None)
}

/// CD-TEXT data of the disc or of one track: one optional string per pack
/// type. An absent entry differs from an empty one.
#[derive(Debug)]
pub struct CDText {
    packs: Vec<Option<String>>,
}

impl View for CDText {
    type V = Seq<Option<Seq<char>>>;

    closed spec fn view(&self) -> Seq<Option<Seq<char>>> {
        Seq::new(PACK_COUNT as nat, |i: int|
            if i < self.packs@.len() { opt_chars(self.packs@[i]) } else { None })
    }
}

impl CDText {
    /// The table whose entries are those of `packs`, in pack-type order;
    /// entries past the last pack type are ignored, missing ones are absent.
    pub fn from(packs: Vec<Option<String>>) -> (r: CDText)
        ensures
            r@ == Seq::new(PACK_COUNT as nat, |i: int|
                if i < packs@.len() { opt_chars(packs@[i]) } else { None }),
    {
        CDText { packs }
    }

    /// The table with no entries.
    pub fn new() -> (r: CDText)
        ensures
            r@ == no_packs(),
    {
        let r = CDText { packs: Vec::new() };
        assert(r@ =~= no_packs());
        r
    }

    /// The text stored for a pack type, or `None` where there is none.
    pub fn read(&self, pack_type: PTI) -> (r: Option<String>)
        ensures
            opt_chars(r) == pack_entry(self@, pack_type),
    {
        let k = pti_index(pack_type);
        if k < self.packs.len() && k < PACK_COUNT {
            clone_opt(&self.packs[k])
        } else {
            None
        }
    }

    /// Stores `value` as the entry in slot `slot`.
    pub(crate) fn set(&mut self, slot: usize, value: String)
        requires
            slot < PACK_COUNT,
        ensures
            final(self)@ == old(self)@.update(slot as int, Some(value@)),
    {
        let ghost v = value@;
        while self.packs.len() <= slot
            invariant
                self@ == old(self)@,
            decreases slot + 1 - self.packs@.len(),
        {
            let ghost before = self@;
            self.packs.push(None);
            assert(self@ =~= before);
        }
        self.packs.set(slot, Some(value));
        assert(self@ =~= old(self)@.update(slot as int, Some(v)));
    }
}

} // verus!
