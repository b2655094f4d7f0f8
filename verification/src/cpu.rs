use crate::lir::{lemma_lirs_view, lemma_lirs_view_push, lir_view, lirs_view, Lir};
use crate::semantics::Op;
use vstd::prelude::*;

verus! {

/// Identifier of a track of the tape.
#[derive(PartialEq, Eq, Structural, Clone, Copy, Debug)]
pub enum TrackId {
    Stack,
    Heap,
    Scratch1,
    Scratch2,
    Scratch3,
    CurDataPtr,
    Register1,
}

/// A position on the tape: cell number `frame * frame_size + track`.
#[derive(PartialEq, Eq, Structural, Clone, Copy, Debug)]
pub struct Pos {
    pub frame: isize,
    pub track: isize,
}

#[derive(PartialEq, Eq, Structural, Clone, Copy, Debug)]
pub struct Track {
    pub track_num: isize,
}

#[derive(PartialEq, Eq, Structural, Clone, Copy, Debug)]
pub struct Register {
    pub track: Track,
    pub size: isize,
    pub offset: isize,
}

#[derive(PartialEq, Eq, Structural, Clone, Copy, Debug)]
pub struct BinRegister {
    pub track: Track,
    pub size: isize,
    pub offset: isize,
}

#[derive(PartialEq, Eq, Structural, Clone, Copy, Debug)]
pub struct ScratchTrack {
    pub track: Track,
    /// shift all accesses by this amount
    pub offset: isize,
    /// don't access left of this position (at offset=0)
    pub dont_go_left_of: Option<isize>,
}

pub enum TrackKind {
    Data(Track),
    Register(Register),
    MultipleRegisters(isize, Vec<(String, Register)>, Vec<(String, BinRegister)>),
    BinRegister(BinRegister),
    Scratch(ScratchTrack),
}

pub struct CpuConfig {
    pub tracks: Vec<(TrackId, TrackKind)>,
}



/// Bound on frames, offsets and sizes, so that cell indices fit in an `isize` on every platform.
pub open spec fn small(x: int) -> bool {
    -0x10_0000 <= x <= 0x10_0000
}

impl Pos {
    /// The cell index of this position.
    pub fn index(&self, cfg: &CpuConfig) -> (r: isize)
        requires
            cfg.wf(),
            -0x40_0000 <= self.frame <= 0x40_0000,
            -0x40_0000 <= self.track <= 0x40_0000,
        ensures
            r == self.frame * cfg.tracks@.len() + self.track,
    {
        let fs = cfg.frame_size();
        assert(self.frame * fs <= 0x40_0000 * 7 && self.frame * fs >= -0x40_0000 * 7) by (nonlinear_arith)
            requires -0x40_0000 <= self.frame <= 0x40_0000, 0 <= fs <= 7;
        self.frame * fs + self.track
    }

    pub fn get_shifted(&self, frame_shift: isize) -> (r: Pos)
        requires isize::MIN <= self.frame + frame_shift <= isize::MAX,
        ensures r == (Pos { track: self.track, frame: (self.frame + frame_shift) as isize }),
    {
        Pos { track: self.track, frame: self.frame + frame_shift }
    }
}

impl Track {
    pub fn at(&self, frame: isize) -> (r: Pos)
        ensures r == (Pos { frame, track: self.track_num }),
    {
        Pos { frame, track: self.track_num }
    }

    pub fn view_register_at(&self, at: isize, size: isize) -> (r: Register)
        ensures r == (Register { track: *self, size, offset: at }),
    {
        Register { track: *self, size, offset: at }
    }
}

pub open spec fn fits_isize(x: int) -> bool {
    isize::MIN <= x <= isize::MAX
}

impl Register {
    pub fn at(&self, frame: isize) -> (r: Pos)
        requires
            0 <= frame < self.size,
            fits_isize(frame + self.offset),
        ensures r == (Pos { frame: (frame + self.offset) as isize, track: self.track.track_num }),
    {
        self.track.at(frame + self.offset)
    }

    pub fn last_pos(&self) -> (r: Pos)
        requires
            self.size >= 1,
            fits_isize(self.size - 1 + self.offset),
        ensures r == (Pos { frame: (self.size - 1 + self.offset) as isize, track: self.track.track_num }),
    {
        self.at(self.size - 1)
    }

    pub fn subview_unchecked(&self, offset: isize, size: isize) -> (r: Register)
        requires fits_isize(self.offset + offset),
        ensures r == (Register { track: self.track, size, offset: (self.offset + offset) as isize }),
    {
        Register { track: self.track, size, offset: self.offset + offset }
    }

    pub fn subview(&self, offset: isize, size: isize) -> (r: Register)
        requires
            offset >= 0,
            offset + size <= self.size,
            fits_isize(self.offset + offset),
        ensures r == (Register { track: self.track, size, offset: (self.offset + offset) as isize }),
    {
        self.subview_unchecked(offset, size)
    }

    pub fn subview_tail(&self, size: isize) -> (r: Register)
        requires
            size <= self.size,
            fits_isize(self.size - size),
            fits_isize(self.offset + self.size - size),
        ensures r == (Register { track: self.track, size, offset: (self.offset + self.size - size) as isize }),
    {
        self.subview(self.size - size, size)
    }
}

impl BinRegister {
    pub fn at(&self, frame: isize) -> (r: Pos)
        requires
            0 <= frame < self.size,
            fits_isize(frame + self.offset),
        ensures r == (Pos { frame: (frame + self.offset) as isize, track: self.track.track_num }),
    {
        self.track.at(frame + self.offset)
    }

    pub fn at_unchecked(&self, frame: isize) -> (r: Pos)
        requires fits_isize(frame + self.offset),
        ensures r == (Pos { frame: (frame + self.offset) as isize, track: self.track.track_num }),
    {
        self.track.at(frame + self.offset)
    }

    pub fn last_pos(&self) -> (r: Pos)
        requires
            self.size >= 1,
            fits_isize(self.size - 1 + self.offset),
        ensures r == (Pos { frame: (self.size - 1 + self.offset) as isize, track: self.track.track_num }),
    {
        self.at(self.size - 1)
    }

    pub fn subview(&self, offset: isize, size: isize) -> (r: BinRegister)
        requires
            offset >= 0,
            offset + size <= self.size,
            fits_isize(self.offset + offset),
        ensures r == (BinRegister { track: self.track, size, offset: (self.offset + offset) as isize }),
    {
        BinRegister { track: self.track, size, offset: self.offset + offset }
    }

    pub fn subview_tail(&self, size: isize) -> (r: BinRegister)
        requires
            size <= self.size,
            fits_isize(self.size - size),
            fits_isize(self.offset + self.size - size),
        ensures r == (BinRegister { track: self.track, size, offset: (self.offset + self.size - size) as isize }),
    {
        self.subview(self.size - size, size)
    }

    pub fn as_register(&self) -> (r: Register)
        ensures r == (Register { track: self.track, size: self.size, offset: self.offset }),
    {
        Register { track: self.track, size: self.size, offset: self.offset }
    }
}

impl ScratchTrack {
    /// The leftmost frame that may be used, before the offset is applied.
    pub open spec fn left_limit(self) -> int {
        match self.dont_go_left_of {
            Some(l) => l as int,
            None => 0,
        }
    }

    /// Whether `frame` may be accessed.
    pub open spec fn allows(self, frame: int) -> bool {
        match self.dont_go_left_of {
            Some(l) => frame + self.offset >= l,
            None => true,
        }
    }

    pub open spec fn spec_at(self, frame: int) -> Pos {
        Pos { frame: (frame + self.offset) as isize, track: self.track.track_num }
    }

    pub fn at(&self, frame: isize) -> (r: Pos)
        requires
            self.allows(frame as int),
            fits_isize(frame + self.offset),
        ensures r == self.spec_at(frame as int),
    {
        self.track.at(frame + self.offset)
    }

    pub fn get_2_pos(&self, start: isize) -> (r: [Pos; 2])
        requires
            self.allows(start as int),
            -0x40_0000 <= start <= 0x40_0000,
            small(self.offset as int),
        ensures r@ == seq![self.spec_at(start as int), self.spec_at(start + 1)],
    {
        [self.at(start), self.at(start + 1)]
    }

    pub fn get_3_pos(&self, start: isize) -> (r: [Pos; 3])
        requires
            self.allows(start as int),
            -0x40_0000 <= start <= 0x40_0000,
            small(self.offset as int),
        ensures r@ == seq![self.spec_at(start as int), self.spec_at(start + 1), self.spec_at(start + 2)],
    {
        [self.at(start), self.at(start + 1), self.at(start + 2)]
    }

    pub fn get_4_pos(&self, start: isize) -> (r: [Pos; 4])
        requires
            self.allows(start as int),
            -0x40_0000 <= start <= 0x40_0000,
            small(self.offset as int),
        ensures r@ == seq![self.spec_at(start as int), self.spec_at(start + 1), self.spec_at(start + 2), self.spec_at(start + 3)],
    {
        [self.at(start), self.at(start + 1), self.at(start + 2), self.at(start + 3)]
    }

    pub fn get_5_pos(&self, start: isize) -> (r: [Pos; 5])
        requires
            self.allows(start as int),
            -0x40_0000 <= start <= 0x40_0000,
            small(self.offset as int),
        ensures r@ == seq![self.spec_at(start as int), self.spec_at(start + 1), self.spec_at(start + 2), self.spec_at(start + 3), self.spec_at(start + 4)],
    {
        [self.at(start), self.at(start + 1), self.at(start + 2), self.at(start + 3), self.at(start + 4)]
    }

    /// A well-formed scratch track: its limit and offset are small.
    pub open spec fn wf(self) -> bool {
        &&& small(self.left_limit())
        &&& small(self.offset as int)
    }

    /// The scratch track with its first `n` usable frames split off.
    pub open spec fn spec_split(self, n: int) -> ScratchTrack {
        ScratchTrack { track: self.track, dont_go_left_of: Some((self.left_limit() + n) as isize), offset: self.offset }
    }

    /// The first usable frame, as a position.
    pub open spec fn first(self) -> Pos {
        Pos { frame: self.left_limit() as isize, track: self.track.track_num }
    }

    pub fn get_split_scratch(&self, num_poss_split: isize) -> (r: ScratchTrack)
        requires
            self.wf(),
            small(num_poss_split as int),
        ensures r == self.spec_split(num_poss_split as int),
    {
        let l = match self.dont_go_left_of {
            Some(l) => l,
            None => 0,
        };
        ScratchTrack { track: self.track, dont_go_left_of: Some(l + num_poss_split), offset: self.offset }
    }

    fn limit(&self) -> (r: isize)
        ensures r == self.left_limit(),
    {
        match self.dont_go_left_of {
            Some(l) => l,
            None => 0,
        }
    }

    pub fn split_1(self) -> (r: (Pos, ScratchTrack))
        requires self.wf(),
        ensures r == (self.first(), self.spec_split(1)),
    {
        (self.at(self.limit() - self.offset), self.get_split_scratch(1))
    }

    pub fn split_2(self) -> (r: ([Pos; 2], ScratchTrack))
        requires self.wf(),
        ensures
            r.0@ == seq![self.first(), self.first().shifted(1)],
            r.1 == self.spec_split(2),
    {
        (self.get_2_pos(self.limit() - self.offset), self.get_split_scratch(2))
    }

    pub fn split_3(self) -> (r: ([Pos; 3], ScratchTrack))
        requires self.wf(),
        ensures
            r.0@ == seq![self.first(), self.first().shifted(1), self.first().shifted(2)],
            r.1 == self.spec_split(3),
    {
        (self.get_3_pos(self.limit() - self.offset), self.get_split_scratch(3))
    }

    pub fn split_4(self) -> (r: ([Pos; 4], ScratchTrack))
        requires self.wf(),
        ensures
            r.0@ == seq![self.first(), self.first().shifted(1), self.first().shifted(2), self.first().shifted(3)],
            r.1 == self.spec_split(4),
    {
        (self.get_4_pos(self.limit() - self.offset), self.get_split_scratch(4))
    }

    pub fn split_5(self) -> (r: ([Pos; 5], ScratchTrack))
        requires self.wf(),
        ensures
            r.0@ == seq![self.first(), self.first().shifted(1), self.first().shifted(2), self.first().shifted(3), self.first().shifted(4)],
            r.1 == self.spec_split(5),
    {
        (self.get_5_pos(self.limit() - self.offset), self.get_split_scratch(5))
    }

    /// Moves the offset so that `frame` may be accessed.
    pub fn shift_so_frame_is_legal(&mut self, frame: isize)
        requires
            old(self).wf(),
            small(frame as int),
        ensures
            *final(self) == (match old(self).dont_go_left_of {
                Some(l) => if frame + old(self).offset < l {
                    ScratchTrack { offset: (l - frame) as isize, ..*old(self) }
                } else {
                    *old(self)
                },
                None => *old(self),
            }),
    {
        if let Some(l) = self.dont_go_left_of {
            if frame + self.offset < l {
                self.offset = l - frame;
            }
        }
    }

    pub fn split_register(self, size: isize) -> (r: (Register, ScratchTrack))
        requires
            self.wf(),
            small(size as int),
        ensures
            r == (Register { offset: (self.left_limit() - self.offset) as isize, size, track: self.track }, self.spec_split(size as int)),
    {
        (Register { offset: self.limit() - self.offset, size, track: self.track }, self.get_split_scratch(size))
    }

    pub fn split_binregister(self, size: isize) -> (r: (BinRegister, ScratchTrack))
        requires
            self.wf(),
            small(size as int),
        ensures
            r == (BinRegister { offset: (self.left_limit() - self.offset) as isize, size, track: self.track }, self.spec_split(size as int)),
    {
        (BinRegister { offset: self.limit() - self.offset, size, track: self.track }, self.get_split_scratch(size))
    }
}

impl Pos {
    pub open spec fn shifted(self, n: int) -> Pos {
        Pos { frame: (self.frame + n) as isize, track: self.track }
    }
}

impl TrackKind {
    /// The track number of this kind of track.
    pub open spec fn track_num(self) -> int {
        match self {
            TrackKind::Data(t) => t.track_num as int,
            TrackKind::Register(r) => r.track.track_num as int,
            TrackKind::MultipleRegisters(n, _, _) => n as int,
            TrackKind::BinRegister(r) => r.track.track_num as int,
            TrackKind::Scratch(s) => s.track.track_num as int,
        }
    }
}

/// Whether the configuration has a track with this identifier.
pub open spec fn has_track(tracks: Seq<(TrackId, TrackKind)>, id: TrackId) -> bool {
    exists|i: int| 0 <= i < tracks.len() && #[trigger] tracks[i].0 == id
}

pub open spec fn track_id_num(id: TrackId) -> int {
    match id {
        TrackId::Stack => 0,
        TrackId::Heap => 1,
        TrackId::Scratch1 => 2,
        TrackId::Scratch2 => 3,
        TrackId::Scratch3 => 4,
        TrackId::CurDataPtr => 5,
        TrackId::Register1 => 6,
    }
}

proof fn lemma_distinct_ids_bound(tracks: Seq<(TrackId, TrackKind)>, id: TrackId)
    requires
        forall|i: int, j: int| 0 <= i < j < tracks.len() ==> tracks[i].0 != tracks[j].0,
        !has_track(tracks, id),
    ensures
        tracks.len() < 7,
{
    let s = Set::new(|k: int| exists|i: int| 0 <= i < tracks.len() && track_id_num(tracks[i].0) == k);
    let full = Set::new(|k: int| 0 <= k < 7 && k != track_id_num(id));
    assert(s.subset_of(full));
    assert(full =~= set![0int, 1, 2, 3, 4, 5, 6].remove(track_id_num(id)));
    vstd::set_lib::lemma_len_subset(s, full);
    let f = |i: int| track_id_num(tracks[i].0);
    let dom = Set::new(|i: int| 0 <= i < tracks.len());
    assert(dom =~= vstd::set_lib::set_int_range(0, tracks.len() as int));
    vstd::set_lib::lemma_int_range(0, tracks.len() as int);
    assert forall|k: int| #[trigger] s.contains(k) <==> dom.map(f).contains(k) by {
        if s.contains(k) {
            let i = choose|i: int| 0 <= i < tracks.len() && track_id_num(tracks[i].0) == k;
            assert(dom.contains(i) && f(i) == k);
        }
        if dom.map(f).contains(k) {
            let i = choose|i: int| dom.contains(i) && f(i) == k;
            assert(0 <= i < tracks.len() && track_id_num(tracks[i].0) == k);
        }
    }
    assert(s =~= dom.map(f));
    assert forall|a: int, b: int| dom.contains(a) && dom.contains(b) && f(a) == f(b) implies a == b by {
        if a != b {
            if a < b {
                assert(tracks[a].0 != tracks[b].0);
            } else {
                assert(tracks[b].0 != tracks[a].0);
            }
        }
    }
    vstd::set_lib::lemma_map_size(dom, s, f);
}

impl CpuConfig {
    /// Well-formed: the identifiers are distinct, and the tracks are numbered in order.
    pub open spec fn wf(&self) -> bool {
        &&& self.tracks@.len() <= 7
        &&& forall|i: int, j: int| 0 <= i < j < self.tracks@.len() ==> self.tracks@[i].0 != self.tracks@[j].0
        &&& forall|i: int| 0 <= i < self.tracks@.len() ==> (#[trigger] self.tracks@[i]).1.track_num() == i
    }

    pub open spec fn fs(&self) -> int {
        self.tracks@.len() as int
    }

    pub fn new() -> (r: CpuConfig)
        ensures
            r.wf(),
            r.tracks@.len() == 0,
    {
        CpuConfig { tracks: Vec::new() }
    }

    pub fn get_tracks(&self) -> (r: &Vec<(TrackId, TrackKind)>)
        ensures r == &self.tracks,
    {
        &self.tracks
    }

    pub fn frame_size(&self) -> (r: isize)
        requires self.wf(),
        ensures r == self.tracks@.len(),
    {
        self.tracks.len() as isize
    }

    fn add_track(&mut self, id: TrackId, kind: TrackKind)
        requires
            old(self).wf(),
            !has_track(old(self).tracks@, id),
            kind.track_num() == old(self).tracks@.len(),
        ensures
            final(self).wf(),
            final(self).tracks@ == old(self).tracks@.push((id, kind)),
    {
        proof { lemma_distinct_ids_bound(self.tracks@, id); }
        self.tracks.push((id, kind));
        assert forall|i: int, j: int| 0 <= i < j < self.tracks@.len() implies self.tracks@[i].0 != self.tracks@[j].0 by {
            if j == self.tracks@.len() - 1 {
                assert(old(self).tracks@[i].0 != id);
            }
        }
    }

    pub fn add_data_track(&mut self, id: TrackId) -> (r: Track)
        requires
            old(self).wf(),
            !has_track(old(self).tracks@, id),
        ensures
            final(self).wf(),
            r == (Track { track_num: old(self).tracks@.len() as isize }),
            final(self).tracks@ == old(self).tracks@.push((id, TrackKind::Data(r))),
    {
        let track = Track { track_num: self.tracks.len() as isize };
        self.add_track(id, TrackKind::Data(track));
        track
    }

    pub fn add_scratch_track(&mut self, id: TrackId) -> (r: ScratchTrack)
        requires
            old(self).wf(),
            !has_track(old(self).tracks@, id),
        ensures
            final(self).wf(),
            r == (ScratchTrack { track: Track { track_num: old(self).tracks@.len() as isize }, offset: 0, dont_go_left_of: None }),
            final(self).tracks@ == old(self).tracks@.push((id, TrackKind::Scratch(r))),
    {
        let track = ScratchTrack { track: Track { track_num: self.tracks.len() as isize }, offset: 0, dont_go_left_of: None };
        self.add_track(id, TrackKind::Scratch(track));
        track
    }

    pub fn add_register_track(&mut self, id: TrackId, size: isize) -> (r: Register)
        requires
            old(self).wf(),
            !has_track(old(self).tracks@, id),
        ensures
            final(self).wf(),
            r == (Register { size, track: Track { track_num: old(self).tracks@.len() as isize }, offset: 0 }),
            final(self).tracks@ == old(self).tracks@.push((id, TrackKind::Register(r))),
    {
        let track = Register { size, track: Track { track_num: self.tracks.len() as isize }, offset: 0 };
        self.add_track(id, TrackKind::Register(track));
        track
    }

    pub fn build_register_track(&mut self, id: TrackId) -> (r: RegisterTrackBuilder)
        requires
            old(self).wf(),
            !has_track(old(self).tracks@, id),
        ensures
            final(self).wf(),
            r == (RegisterTrackBuilder { cur_offset: 0, track_num: old(self).tracks@.len() as isize }),
            final(self).tracks@.len() == old(self).tracks@.len() + 1,
            final(self).tracks@.drop_last() == old(self).tracks@,
            final(self).tracks@.last().0 == id,
            final(self).tracks@.last().1 matches TrackKind::MultipleRegisters(n, rs, bs) && n == old(self).tracks@.len() && rs@.len() == 0 && bs@.len() == 0,
    {
        let track_num = self.tracks.len() as isize;
        self.add_track(id, TrackKind::MultipleRegisters(track_num, Vec::new(), Vec::new()));
        assert(self.tracks@.drop_last() =~= old(self).tracks@);
        RegisterTrackBuilder { cur_offset: 0, track_num }
    }
}

/// Hands out registers placed one after another on one track.
pub struct RegisterTrackBuilder {
    pub cur_offset: isize,
    pub track_num: isize,
}

impl RegisterTrackBuilder {
    pub fn add_register(&mut self, size: isize) -> (r: Register)
        requires fits_isize(old(self).cur_offset + size),
        ensures
            r == (Register { size, track: Track { track_num: old(self).track_num }, offset: old(self).cur_offset }),
            *final(self) == (RegisterTrackBuilder { cur_offset: (old(self).cur_offset + size) as isize, track_num: old(self).track_num }),
    {
        let register = Register { size, track: Track { track_num: self.track_num }, offset: self.cur_offset };
        self.cur_offset = self.cur_offset + size;
        register
    }

    pub fn add_binregister(&mut self, size: isize) -> (r: BinRegister)
        requires fits_isize(old(self).cur_offset + size),
        ensures
            r == (BinRegister { size, track: Track { track_num: old(self).track_num }, offset: old(self).cur_offset }),
            *final(self) == (RegisterTrackBuilder { cur_offset: (old(self).cur_offset + size) as isize, track_num: old(self).track_num }),
    {
        let register = BinRegister { size, track: Track { track_num: self.track_num }, offset: self.cur_offset };
        self.cur_offset = self.cur_offset + size;
        register
    }
}

}
verus! {

broadcast use lemma_lirs_view;

/// Bound on the frame the cursor may be at.
pub open spec fn mid(x: int) -> bool {
    -0x40_0000 <= x <= 0x40_0000
}

/// Model of a code generator: where it believes the cursor is, and the code so far.
#[verifier::ext_equal]
pub struct CpuState {
    pub track: int,
    pub frame: Option<int>,
    pub code: Seq<Op>,
}

/// `n` pointer moves to the right, or `-n` to the left.
pub open spec fn moves(n: int) -> Seq<Op> {
    if n >= 0 {
        Seq::new(n as nat, |i: int| Op::Right)
    } else {
        Seq::new((-n) as nat, |i: int| Op::Left)
    }
}

pub open spec fn g_emit(s: CpuState, ops: Seq<Op>) -> CpuState {
    CpuState { code: s.code + ops, ..s }
}

pub open spec fn g_op(s: CpuState, op: Op) -> CpuState {
    CpuState { code: s.code.push(op), ..s }
}

/// The distance, in cells, from the cursor to `p`.
pub open spec fn delta(fs: int, s: CpuState, p: Pos) -> int {
    (p.track - s.track) + (p.frame - s.frame.unwrap()) * fs
}

pub open spec fn g_goto(fs: int, s: CpuState, p: Pos) -> CpuState {
    CpuState { code: s.code + moves(delta(fs, s, p)), track: p.track as int, frame: Some(p.frame as int) }
}

pub open spec fn g_op_at(fs: int, s: CpuState, p: Pos, op: Op) -> CpuState {
    g_op(g_goto(fs, s, p), op)
}

/// An empty generator with the same cursor.
pub open spec fn child(s: CpuState) -> CpuState {
    CpuState { code: Seq::empty(), ..s }
}

/// Go to `at`, and loop while the cell there is not zero; the body is generated by
/// `body` and goes back to `at` at its end.
pub open spec fn g_loop_while(fs: int, s: CpuState, at: Pos, body: spec_fn(CpuState) -> CpuState) -> CpuState {
    let s1 = g_goto(fs, s, at);
    let c = g_goto(fs, body(child(s1)), at);
    g_op(s1, Op::Loop(c.code))
}

/// A loop wherever the cursor is; the cursor frame is known afterwards only if the
/// body ends at the frame where it started.
pub open spec fn g_raw_loop(s: CpuState, body: spec_fn(CpuState) -> CpuState) -> CpuState {
    let c = body(child(s));
    CpuState {
        code: s.code.push(Op::Loop(c.code)),
        frame: if s.frame is Some && c.frame == s.frame { s.frame } else { None },
        track: s.track,
    }
}

pub open spec fn pos_ok(p: Pos) -> bool {
    mid(p.frame as int) && mid(p.track as int)
}

/// Code generator for a given CPU configuration. It tracks where the Brainfuck
/// pointer is: on track `cur_track`, and at frame `cur_frame` where known.
pub struct Cpu<'c> {
    pub cfg: &'c CpuConfig,
    pub cur_track: isize,
    pub cur_frame: Option<isize>,
    pub lir: Vec<Lir>,
}

impl<'c> Cpu<'c> {
    pub open spec fn st(&self) -> CpuState {
        CpuState {
            track: self.cur_track as int,
            frame: match self.cur_frame {
                Some(f) => Some(f as int),
                None => None,
            },
            code: lirs_view(self.lir@),
        }
    }

    pub open spec fn fs(&self) -> int {
        self.cfg.fs()
    }

    pub open spec fn wf(&self) -> bool {
        &&& self.cfg.wf()
        &&& mid(self.cur_track as int)
        &&& match self.cur_frame {
            Some(f) => mid(f as int),
            None => true,
        }
    }

    /// The generator may go to `p`.
    pub open spec fn can_goto(&self, p: Pos) -> bool {
        &&& self.wf()
        &&& self.cur_frame is Some
        &&& pos_ok(p)
    }

    fn push(&mut self, l: Lir)
        ensures
            final(self).st() == g_op(old(self).st(), lir_view(l)),
            final(self).cfg == old(self).cfg,
    {
        proof { lemma_lirs_view_push(self.lir@, l); }
        self.lir.push(l);
    }

    pub fn new(cfg: &'c CpuConfig) -> (r: Cpu<'c>)
        requires cfg.wf(),
        ensures
            r.cfg == cfg,
            r.wf(),
            r.st() == (CpuState { track: 0, frame: Some(0), code: moves(cfg.fs() * 3) }),
    {
        let mut cpu = Cpu { cfg, cur_track: 0, cur_frame: Some(0), lir: Vec::new() };
        let n = cfg.frame_size() * 3;
        let mut i: isize = 0;
        while i < n
            invariant
                0 <= i <= n,
                n == cfg.fs() * 3,
                cpu.cfg == cfg,
                cpu.cur_track == 0,
                cpu.cur_frame == Some(0isize),
                lirs_view(cpu.lir@) == moves(i as int),
            decreases n - i,
        {
            cpu.push(Lir::Right);
            assert(moves(i as int).push(Op::Right) =~= moves(i + 1));
            i = i + 1;
        }
        cpu
    }

    pub fn get_cfg(&self) -> (r: &CpuConfig)
        ensures r == self.cfg,
    {
        self.cfg
    }

    pub fn into_ops(self) -> (r: Vec<Lir>)
        ensures lirs_view(r@) == self.st().code,
    {
        self.lir
    }

    pub fn clone_ops(self) -> (r: Vec<Lir>)
        ensures lirs_view(r@) == self.st().code,
    {
        self.lir
    }

    pub fn inc(&mut self)
        ensures final(self).st() == g_op(old(self).st(), Op::Inc), final(self).cfg == old(self).cfg,
    {
        self.push(Lir::Inc);
    }

    pub fn dec(&mut self)
        ensures final(self).st() == g_op(old(self).st(), Op::Dec), final(self).cfg == old(self).cfg,
    {
        self.push(Lir::Dec);
    }

    pub fn out(&mut self)
        ensures final(self).st() == g_op(old(self).st(), Op::Out), final(self).cfg == old(self).cfg,
    {
        self.push(Lir::Out);
    }

    pub fn read_stdin(&mut self)
        ensures final(self).st() == g_op(old(self).st(), Op::In), final(self).cfg == old(self).cfg,
    {
        self.push(Lir::In);
    }

    pub fn comment(&mut self, msg: String)
        ensures final(self).st() == g_op(old(self).st(), Op::Comment(msg@)), final(self).cfg == old(self).cfg,
    {
        self.push(Lir::Comment(msg));
    }

    pub fn debug_message(&mut self, msg: String)
        ensures final(self).st() == g_op(old(self).st(), Op::DebugMessage(msg@)), final(self).cfg == old(self).cfg,
    {
        self.push(Lir::DebugMessage(msg));
    }

    pub fn crash(&mut self, msg: String)
        ensures final(self).st() == g_op(old(self).st(), Op::Crash(msg@)), final(self).cfg == old(self).cfg,
    {
        self.push(Lir::Crash(msg));
    }

    pub fn breakpoint(&mut self)
        ensures final(self).st() == g_op(old(self).st(), Op::Breakpoint), final(self).cfg == old(self).cfg,
    {
        self.push(Lir::Breakpoint);
    }

    /// Emits `|shift|` pointer moves; the frame becomes unknown if asked.
    pub fn shift_cursor_untracked(&mut self, shift: isize, set_cur_frame_to_none: bool)
        requires -0x1000_0000 <= shift <= 0x1000_0000,
        ensures
            final(self).st() == (CpuState {
                code: old(self).st().code + moves(shift as int),
                frame: if set_cur_frame_to_none { None } else { old(self).st().frame },
                track: old(self).st().track,
            }),
            final(self).cfg == old(self).cfg,
            final(self).cur_track == old(self).cur_track,
            !set_cur_frame_to_none ==> final(self).cur_frame == old(self).cur_frame,
    {
        let ghost c0 = self.st().code;
        let (n, l) = if shift < 0 { (0 - shift, true) } else { (shift, false) };
        let mut i: isize = 0;
        while i < n
            invariant
                0 <= i <= n,
                n == (if shift < 0 { -shift } else { shift as int }),
                l == (shift < 0),
                self.cfg == old(self).cfg,
                self.cur_track == old(self).cur_track,
                self.cur_frame == old(self).cur_frame,
                self.st().code == c0 + moves(if l { -i } else { i as int }),
            decreases n - i,
        {
            if l {
                self.push(Lir::Left);
                assert(moves(-i).push(Op::Left) =~= moves(-(i + 1)));
            } else {
                self.push(Lir::Right);
                assert(moves(i as int).push(Op::Right) =~= moves(i + 1));
            }
            assert(c0 + moves(if l { -i } else { i as int }) + seq![if l { Op::Left } else { Op::Right }] =~= c0 + moves(if l { -(i + 1) } else { i + 1 }));
            i = i + 1;
        }
        if set_cur_frame_to_none {
            self.cur_frame = None;
        }
    }

    pub fn shift_frame_untracked(&mut self, shift: isize, set_cur_frame_to_none: bool)
        requires
            old(self).cfg.wf(),
            -0x100_0000 <= shift <= 0x100_0000,
        ensures
            final(self).st() == (CpuState {
                code: old(self).st().code + moves(shift * old(self).fs()),
                frame: if set_cur_frame_to_none { None } else { old(self).st().frame },
                track: old(self).st().track,
            }),
            final(self).cfg == old(self).cfg,
            final(self).cur_track == old(self).cur_track,
            !set_cur_frame_to_none ==> final(self).cur_frame == old(self).cur_frame,
    {
        let fs = self.cfg.frame_size();
        assert(-0x1000_0000 <= shift * fs <= 0x1000_0000) by (nonlinear_arith)
            requires -0x100_0000 <= shift <= 0x100_0000, 0 <= fs <= 7;
        self.shift_cursor_untracked(shift * fs, set_cur_frame_to_none);
    }

    pub fn set_cur_frame_unchecked(&mut self, frame: isize)
        ensures
            final(self).st() == (CpuState { frame: Some(frame as int), ..old(self).st() }),
            final(self).cfg == old(self).cfg,
            final(self).cur_track == old(self).cur_track,
            final(self).cur_frame == Some(frame),
    {
        self.cur_frame = Some(frame);
    }

    pub fn now_were_actually_at(&mut self, pos: Pos)
        ensures
            final(self).st() == (CpuState { frame: Some(pos.frame as int), ..old(self).st() }),
            final(self).cfg == old(self).cfg,
            final(self).cur_track == old(self).cur_track,
            final(self).cur_frame == Some(pos.frame),
    {
        self.cur_frame = Some(pos.frame);
    }

    /// The cursor frame, moved by the shift from `a` to `b`.
    pub fn now_if_we_were_at_a_wed_actually_be_at_b(&mut self, a: Pos, b: Pos)
        requires
            a.track == b.track,
            old(self).wf(),
            old(self).cur_frame is Some,
            pos_ok(a),
            pos_ok(b),
        ensures
            final(self).st() == (CpuState { frame: Some(old(self).cur_frame.unwrap() + b.frame - a.frame), ..old(self).st() }),
            final(self).cfg == old(self).cfg,
            final(self).cur_track == old(self).cur_track,
    {
        if let Some(cur_frame) = self.cur_frame {
            self.cur_frame = Some(cur_frame + b.frame - a.frame);
        }
    }

    pub fn goto_track(&mut self, track: isize)
        requires old(self).wf(), mid(track as int),
        ensures
            final(self).st() == (CpuState {
                code: old(self).st().code + moves(track - old(self).cur_track),
                track: track as int,
                frame: old(self).st().frame,
            }),
            final(self).cfg == old(self).cfg,
            final(self).cur_frame == old(self).cur_frame,
            final(self).wf(),
    {
        self.shift_cursor_untracked(track - self.cur_track, false);
        self.cur_track = track;
    }

    pub fn goto_frame(&mut self, frame: isize)
        requires old(self).wf(), old(self).cur_frame is Some, mid(frame as int),
        ensures
            final(self).st() == (CpuState {
                code: old(self).st().code + moves((frame - old(self).cur_frame.unwrap()) * old(self).fs()),
                track: old(self).st().track,
                frame: Some(frame as int),
            }),
            final(self).cfg == old(self).cfg,
            final(self).cur_track == old(self).cur_track,
            final(self).wf(),
    {
        let cur_frame = self.cur_frame.unwrap();
        let fs = self.cfg.frame_size();
        let d = frame - cur_frame;
        assert(-0x1000_0000 <= d * fs <= 0x1000_0000) by (nonlinear_arith)
            requires -0x100_0000 <= d <= 0x100_0000, 0 <= fs <= 7;
        self.shift_cursor_untracked(d * fs, true);
        self.cur_frame = Some(frame);
    }

    /// Moves the pointer to `pos`.
    pub fn goto(&mut self, pos: Pos)
        requires old(self).can_goto(pos),
        ensures
            final(self).st() == g_goto(old(self).fs(), old(self).st(), pos),
            final(self).cfg == old(self).cfg,
            final(self).cur_frame == Some(pos.frame),
            final(self).cur_track == pos.track,
            final(self).wf(),
    {
        let cur_frame = self.cur_frame.unwrap();
        let fs = self.cfg.frame_size();
        let d = pos.frame - cur_frame;
        assert(-0x800_0000 <= d * fs <= 0x800_0000) by (nonlinear_arith)
            requires -0x80_0000 <= d <= 0x80_0000, 0 <= fs <= 7;
        self.shift_cursor_untracked((pos.track - self.cur_track) + d * fs, true);
        self.cur_frame = Some(pos.frame);
        self.cur_track = pos.track;
    }

    pub fn inc_at(&mut self, pos: Pos)
        requires old(self).can_goto(pos),
        ensures
            final(self).st() == g_op_at(old(self).fs(), old(self).st(), pos, Op::Inc),
            final(self).cfg == old(self).cfg,
            final(self).cur_frame == Some(pos.frame),
            final(self).cur_track == pos.track,
            final(self).wf(),
    {
        self.goto(pos);
        self.inc();
    }

    pub fn dec_at(&mut self, pos: Pos)
        requires old(self).can_goto(pos),
        ensures
            final(self).st() == g_op_at(old(self).fs(), old(self).st(), pos, Op::Dec),
            final(self).cfg == old(self).cfg,
            final(self).cur_frame == Some(pos.frame),
            final(self).cur_track == pos.track,
            final(self).wf(),
    {
        self.goto(pos);
        self.dec();
    }

    pub fn print_registers(&mut self, track: Track)
        requires old(self).can_goto(track.at_spec(0)),
        ensures
            final(self).st() == g_op_at(old(self).fs(), old(self).st(), track.at_spec(0), Op::PrintRegisters),
            final(self).cfg == old(self).cfg,
            final(self).wf(),
    {
        self.goto(track.at(0));
        self.push(Lir::PrintRegisters);
    }

    pub fn check_scratch(&mut self, scratch_track: ScratchTrack, msg: String)
        requires
            scratch_track.wf(),
            old(self).can_goto(scratch_track.first()),
        ensures
            final(self).st() == g_op_at(old(self).fs(), old(self).st(), scratch_track.first(), Op::CheckScratchIsEmptyFromHere(msg@)),
            final(self).cfg == old(self).cfg,
            final(self).wf(),
    {
        self.goto(scratch_track.split_1().0);
        self.push(Lir::CheckScratchIsEmptyFromHere(msg));
    }

    /// Adds `x` to the current cell with `|x|` increments or decrements.
    pub fn inc_by(&mut self, x: isize)
        requires -0x1000_0000 <= x <= 0x1000_0000,
        ensures
            final(self).st() == g_emit(old(self).st(), if x > 0 { Seq::new(x as nat, |i: int| Op::Inc) } else { Seq::new((-x) as nat, |i: int| Op::Dec) }),
            final(self).cfg == old(self).cfg,
            final(self).cur_track == old(self).cur_track,
            final(self).cur_frame == old(self).cur_frame,
    {
        let ghost s0 = self.st();
        let (n, up) = if x > 0 { (x, true) } else { (0 - x, false) };
        let mut i: isize = 0;
        while i < n
            invariant
                0 <= i <= n,
                n == (if x > 0 { x as int } else { -x }),
                up == (x > 0),
                self.cfg == old(self).cfg,
                self.cur_track == old(self).cur_track,
                self.cur_frame == old(self).cur_frame,
                self.st() == g_emit(s0, Seq::new(i as nat, |k: int| if up { Op::Inc } else { Op::Dec })),
            decreases n - i,
        {
            if up {
                self.inc();
            } else {
                self.dec();
            }
            assert(s0.code + Seq::new(i as nat, |k: int| if up { Op::Inc } else { Op::Dec }) + seq![if up { Op::Inc } else { Op::Dec }]
                =~= s0.code + Seq::new((i + 1) as nat, |k: int| if up { Op::Inc } else { Op::Dec }));
            i = i + 1;
        }
        assert(Seq::new(n as nat, |k: int| if up { Op::Inc } else { Op::Dec })
            =~= (if x > 0 { Seq::new(x as nat, |i: int| Op::Inc) } else { Seq::new((-x) as nat, |i: int| Op::Dec) }));
    }
}

impl Track {
    pub open spec fn at_spec(self, frame: isize) -> Pos {
        Pos { frame, track: self.track_num }
    }
}

}
verus! {

pub open spec fn g_clr(s: CpuState) -> CpuState {
    g_op(s, Op::Loop(seq![Op::Dec]))
}

/// Go to `p` and clear the cell there.
pub open spec fn g_clr_at(fs: int, s: CpuState, p: Pos) -> CpuState {
    g_clr(g_goto(fs, s, p))
}

pub open spec fn g_add_const(fs: int, s: CpuState, p: Pos, val: u8) -> CpuState {
    if val == 0 {
        s
    } else if val <= 128 {
        g_emit(g_goto(fs, s, p), Seq::new(val as nat, |i: int| Op::Inc))
    } else {
        g_emit(g_goto(fs, s, p), Seq::new((256 - val) as nat, |i: int| Op::Dec))
    }
}

pub open spec fn g_sub_const(fs: int, s: CpuState, p: Pos, val: u8) -> CpuState {
    if val == 0 {
        s
    } else {
        g_emit(g_goto(fs, s, p), Seq::new(val as nat, |i: int| Op::Dec))
    }
}

pub open spec fn g_set_byte(fs: int, s: CpuState, p: Pos, val: u8) -> CpuState {
    g_add_const(fs, g_clr_at(fs, s, p), p, val)
}

/// `to += from; from = 0`
pub open spec fn g_moveadd(fs: int, s: CpuState, from: Pos, to: Pos) -> CpuState {
    if from == to {
        s
    } else {
        g_loop_while(fs, s, from, |c: CpuState| g_op_at(fs, g_op(c, Op::Dec), to, Op::Inc))
    }
}

/// `to -= from; from = 0`
pub open spec fn g_movesub(fs: int, s: CpuState, from: Pos, to: Pos) -> CpuState {
    let s1 = if from == to { g_clr_at(fs, s, from) } else { s };
    g_loop_while(fs, s1, from, |c: CpuState| g_op_at(fs, g_op(c, Op::Dec), to, Op::Dec))
}

/// `to += from`, through `scratch` (which must be zero).
pub open spec fn g_copy_byte(fs: int, s: CpuState, from: Pos, to: Pos, scratch: Pos) -> CpuState {
    if from == to {
        s
    } else {
        g_loop_while(fs, g_moveadd(fs, s, from, scratch), scratch,
            |c: CpuState| g_op_at(fs, g_op_at(fs, g_op(c, Op::Dec), from, Op::Inc), to, Op::Inc))
    }
}

/// `from -= sub`, through `scratch` (which must be zero).
pub open spec fn g_sub_byte_from(fs: int, s: CpuState, sub: Pos, from: Pos, scratch: Pos) -> CpuState {
    let s1 = if sub == from { g_clr_at(fs, s, sub) } else { s };
    g_loop_while(fs, g_moveadd(fs, s1, sub, scratch), scratch,
        |c: CpuState| g_op_at(fs, g_op_at(fs, g_op(c, Op::Dec), sub, Op::Inc), from, Op::Dec))
}

pub proof fn lemma_moves_zero()
    ensures moves(0) == Seq::<Op>::empty(),
{
    assert(moves(0) =~= Seq::<Op>::empty());
}

/// Going to where the cursor is emits nothing.
pub broadcast proof fn lemma_goto_here(fs: int, s: CpuState, p: Pos)
    requires
        s.frame == Some(p.frame as int),
        s.track == p.track,
    ensures
        #[trigger] g_goto(fs, s, p) == s,
{
    lemma_moves_zero();
    assert((p.frame - s.frame.unwrap()) * fs == 0) by (nonlinear_arith)
        requires p.frame - s.frame.unwrap() == 0;
    assert(g_goto(fs, s, p).code =~= s.code);
}

impl<'c> Cpu<'c> {
    /// A generator for a loop body, with the same cursor and no code yet.
    pub(crate) fn child(&self) -> (c: Cpu<'c>)
        ensures
            c.cfg == self.cfg,
            c.st() == child(self.st()),
            c.cur_track == self.cur_track,
            c.cur_frame == self.cur_frame,
    {
        let c = Cpu { cfg: self.cfg, cur_track: self.cur_track, cur_frame: self.cur_frame, lir: Vec::new() };
        assert(lirs_view(c.lir@) =~= Seq::<Op>::empty());
        c
    }

    /// Ends a loop body by going back to `at`, and appends the loop.
    pub(crate) fn close_loop_at(&mut self, at: Pos, c: Cpu<'c>)
        requires c.can_goto(at),
        ensures
            final(self).st() == g_op(old(self).st(), Op::Loop(g_goto(c.fs(), c.st(), at).code)),
            final(self).cfg == old(self).cfg,
            final(self).cur_track == old(self).cur_track,
            final(self).cur_frame == old(self).cur_frame,
    {
        let mut c = c;
        c.goto(at);
        self.push(Lir::Loop(c.lir));
    }

    /// Appends a loop whose body was generated by `c`; the cursor frame stays known
    /// only if the body ends at the frame where it started.
    pub(crate) fn close_raw_loop(&mut self, c: Cpu<'c>)
        requires c.cur_track == old(self).cur_track,
        ensures
            final(self).st() == (CpuState {
                code: old(self).st().code.push(Op::Loop(c.st().code)),
                frame: if old(self).st().frame is Some && c.st().frame == old(self).st().frame { old(self).st().frame } else { None },
                track: old(self).st().track,
            }),
            final(self).cfg == old(self).cfg,
            final(self).cur_track == old(self).cur_track,
            final(self).cur_frame is Some ==> final(self).cur_frame == old(self).cur_frame,
    {
        let same = match (self.cur_frame, c.cur_frame) {
            (Some(a), Some(b)) => a == b,
            _ => false,
        };
        let Cpu { cfg: _, cur_track: _, cur_frame: _, lir } = c;
        self.push(Lir::Loop(lir));
        if !same {
            self.cur_frame = None;
        }
    }

    /// Clears the current cell: `[-]`.
    pub fn clr(&mut self)
        ensures
            final(self).st() == g_clr(old(self).st()),
            final(self).cfg == old(self).cfg,
            final(self).cur_track == old(self).cur_track,
            final(self).cur_frame == old(self).cur_frame,
    {
        let mut c = self.child();
        c.dec();
        self.push(Lir::Loop(c.lir));
    }

    pub fn clr_at(&mut self, at: Pos)
        requires old(self).can_goto(at),
        ensures
            final(self).st() == g_clr_at(old(self).fs(), old(self).st(), at),
            final(self).cfg == old(self).cfg,
            final(self).cur_frame == Some(at.frame),
            final(self).cur_track == at.track,
            final(self).wf(),
    {
        self.goto(at);
        self.clr();
    }

    pub fn zero_byte(&mut self, pos: Pos)
        requires old(self).can_goto(pos),
        ensures
            final(self).st() == g_clr_at(old(self).fs(), old(self).st(), pos),
            final(self).cfg == old(self).cfg,
            final(self).cur_frame == Some(pos.frame),
            final(self).cur_track == pos.track,
            final(self).wf(),
    {
        self.goto(pos);
        let mut c = self.child();
        c.dec();
        proof { lemma_goto_here(c.fs(), c.st(), pos); }
        self.close_loop_at(pos, c);
    }

    pub fn add_const_to_byte(&mut self, pos: Pos, val: u8)
        requires old(self).can_goto(pos),
        ensures
            final(self).st() == g_add_const(old(self).fs(), old(self).st(), pos, val),
            final(self).cfg == old(self).cfg,
            final(self).wf(),
            val != 0 ==> final(self).cur_frame == Some(pos.frame) && final(self).cur_track == pos.track,
            val == 0 ==> final(self).cur_frame == old(self).cur_frame && final(self).cur_track == old(self).cur_track,
    {
        let ghost s0 = self.st();
        let ghost fs = self.fs();
        if val == 0 {
            return;
        }
        let (n, up) = if val <= 128 { (val as u16, true) } else { (256 - val as u16, false) };
        if up {
            self.inc_at(pos);
        } else {
            self.dec_at(pos);
        }
        let mut i: u16 = 1;
        proof { lemma_moves_zero(); }
        assert(self.st() == g_emit(g_goto(fs, s0, pos), Seq::new(1, |k: int| if up { Op::Inc } else { Op::Dec })));
        while i < n
            invariant
                1 <= i <= n,
                n == (if val <= 128 { val as int } else { 256 - val }),
                up == (val <= 128),
                self.can_goto(pos),
                self.cfg == old(self).cfg,
                fs == self.fs(),
                self.cur_frame == Some(pos.frame),
                self.cur_track == pos.track,
                self.st() == g_emit(g_goto(fs, s0, pos), Seq::new(i as nat, |k: int| if up { Op::Inc } else { Op::Dec })),
                moves(0) == Seq::<Op>::empty(),
            decreases n - i,
        {
            proof { lemma_goto_here(fs, self.st(), pos); }
            if up {
                self.inc_at(pos);
            } else {
                self.dec_at(pos);
            }
            assert(g_goto(fs, s0, pos).code + Seq::new(i as nat, |k: int| if up { Op::Inc } else { Op::Dec }) + moves(0) + seq![if up { Op::Inc } else { Op::Dec }]
                =~= g_goto(fs, s0, pos).code + Seq::new((i + 1) as nat, |k: int| if up { Op::Inc } else { Op::Dec }));
            i = i + 1;
        }
        assert(Seq::new(n as nat, |k: int| if up { Op::Inc } else { Op::Dec })
            =~= (if val <= 128 { Seq::new(val as nat, |i: int| Op::Inc) } else { Seq::new((256 - val) as nat, |i: int| Op::Dec) }));
    }

    pub fn sub_const_from_byte(&mut self, pos: Pos, val: u8)
        requires old(self).can_goto(pos),
        ensures
            final(self).st() == g_sub_const(old(self).fs(), old(self).st(), pos, val),
            final(self).cfg == old(self).cfg,
            final(self).wf(),
            val != 0 ==> final(self).cur_frame == Some(pos.frame) && final(self).cur_track == pos.track,
            val == 0 ==> final(self).cur_frame == old(self).cur_frame && final(self).cur_track == old(self).cur_track,
    {
        let ghost s0 = self.st();
        let ghost fs = self.fs();
        let mut i: u8 = 0;
        proof { lemma_moves_zero(); }
        while i < val
            invariant
                0 <= i <= val,
                old(self).can_goto(pos),
                self.cfg == old(self).cfg,
                fs == self.fs(),
                self.wf(),
                i == 0 ==> *self == *old(self),
                i > 0 ==> self.cur_frame == Some(pos.frame) && self.cur_track == pos.track,
                i > 0 ==> self.st() == g_emit(g_goto(fs, s0, pos), Seq::new(i as nat, |k: int| Op::Dec)),
                s0 == old(self).st(),
                moves(0) == Seq::<Op>::empty(),
            decreases val - i,
        {
            proof { if i > 0 { lemma_goto_here(fs, self.st(), pos); } }
            self.dec_at(pos);
            if i > 0 {
                assert(g_goto(fs, s0, pos).code + Seq::new(i as nat, |k: int| Op::Dec) + moves(0) + seq![Op::Dec]
                    =~= g_goto(fs, s0, pos).code + Seq::new((i + 1) as nat, |k: int| Op::Dec));
            } else {
                assert(g_goto(fs, s0, pos).code + seq![Op::Dec] =~= g_goto(fs, s0, pos).code + Seq::new(1, |k: int| Op::Dec));
            }
            i = i + 1;
        }
    }

    pub fn set_byte(&mut self, pos: Pos, val: u8)
        requires old(self).can_goto(pos),
        ensures
            final(self).st() == g_set_byte(old(self).fs(), old(self).st(), pos, val),
            final(self).cfg == old(self).cfg,
            final(self).wf(),
            final(self).cur_frame == Some(pos.frame),
            final(self).cur_track == pos.track,
    {
        self.clr_at(pos);
        self.add_const_to_byte(pos, val);
    }

    /// Does `to += from; from = 0`.
    pub fn moveadd_byte(&mut self, from: Pos, to: Pos)
        requires old(self).can_goto(from), pos_ok(to),
        ensures
            final(self).st() == g_moveadd(old(self).fs(), old(self).st(), from, to),
            final(self).cfg == old(self).cfg,
            final(self).wf(),
            from != to ==> final(self).cur_frame == Some(from.frame) && final(self).cur_track == from.track,
            from == to ==> final(self).cur_frame == old(self).cur_frame && final(self).cur_track == old(self).cur_track,
    {
        if from == to {
            return;
        }
        self.goto(from);
        let mut c = self.child();
        c.dec();
        c.inc_at(to);
        self.close_loop_at(from, c);
    }

    /// Does `to -= from; from = 0`.
    pub fn movesub_byte(&mut self, from: Pos, to: Pos)
        requires old(self).can_goto(from), pos_ok(to),
        ensures
            final(self).st() == g_movesub(old(self).fs(), old(self).st(), from, to),
            final(self).cfg == old(self).cfg,
            final(self).wf(),
            final(self).cur_frame == Some(from.frame) && final(self).cur_track == from.track,
    {
        if from == to {
            self.clr_at(from);
        }
        self.goto(from);
        let mut c = self.child();
        c.dec();
        c.dec_at(to);
        self.close_loop_at(from, c);
    }

    /// Does `to += from` through `scratch`, which must be zero and stays zero.
    pub fn copy_byte(&mut self, from: Pos, to: Pos, scratch: Pos)
        requires
            old(self).can_goto(from),
            pos_ok(to),
            pos_ok(scratch),
            from != to ==> from != scratch && to != scratch,
        ensures
            final(self).st() == g_copy_byte(old(self).fs(), old(self).st(), from, to, scratch),
            final(self).cfg == old(self).cfg,
            final(self).wf(),
            from != to ==> final(self).cur_frame == Some(scratch.frame) && final(self).cur_track == scratch.track,
            from == to ==> final(self).cur_frame == old(self).cur_frame && final(self).cur_track == old(self).cur_track,
    {
        if from == to {
            return;
        }
        self.moveadd_byte(from, scratch);
        self.goto(scratch);
        let mut c = self.child();
        c.dec();
        c.inc_at(from);
        c.inc_at(to);
        self.close_loop_at(scratch, c);
    }

    /// Does `from -= sub` through `scratch`, which must be zero and stays zero.
    pub fn sub_byte_from(&mut self, sub: Pos, from: Pos, scratch: Pos)
        requires
            old(self).can_goto(sub),
            pos_ok(from),
            pos_ok(scratch),
            sub != scratch,
            from != scratch,
        ensures
            final(self).st() == g_sub_byte_from(old(self).fs(), old(self).st(), sub, from, scratch),
            final(self).cfg == old(self).cfg,
            final(self).wf(),
            final(self).cur_frame == Some(scratch.frame) && final(self).cur_track == scratch.track,
    {
        if sub == from {
            self.clr_at(sub);
        }
        self.moveadd_byte(sub, scratch);
        self.goto(scratch);
        let mut c = self.child();
        c.dec();
        c.inc_at(sub);
        c.dec_at(from);
        self.close_loop_at(scratch, c);
    }
}


/// Step along the track, `dir` frames at a time, until a marker cell is found: the
/// current cell gets `enter`, and the loop undoes it, moves, and applies it again.
/// Afterwards the cursor is known to be at `landing`.
pub open spec fn g_sentinel(fs: int, s: CpuState, landing: Pos, enter: Op, undo: Op, dir: int) -> CpuState {
    CpuState {
        code: s.code.push(enter).push(Op::Loop(seq![undo] + moves(dir * fs) + seq![enter])),
        frame: Some(landing.frame as int),
        track: s.track,
    }
}

impl<'c> Cpu<'c> {
    fn sentinel_walk(&mut self, landing_pos: Pos, up: bool, dir: isize)
        requires
            old(self).wf(),
            old(self).cur_track == landing_pos.track,
            mid(landing_pos.frame as int),
            dir == 1 || dir == -1,
        ensures
            final(self).st() == g_sentinel(old(self).fs(), old(self).st(), landing_pos,
                if up { Op::Inc } else { Op::Dec }, if up { Op::Dec } else { Op::Inc }, dir as int),
            final(self).cfg == old(self).cfg,
            final(self).cur_track == old(self).cur_track,
            final(self).cur_frame == Some(landing_pos.frame),
            final(self).wf(),
    {
        if up { self.inc(); } else { self.dec(); }
        let mut c = self.child();
        let ghost c0 = c.st();
        if up { c.dec(); } else { c.inc(); }
        c.shift_frame_untracked(dir, true);
        if up { c.inc(); } else { c.dec(); }
        assert(c.st().code =~= seq![if up { Op::Dec } else { Op::Inc }] + moves(dir * old(self).fs()) + seq![if up { Op::Inc } else { Op::Dec }]);
        self.close_raw_loop(c);
        self.cur_frame = Some(landing_pos.frame);
    }

    /// Walks left to the first cell holding 1, clears it, and stays there.
    pub fn go_clear_sentinel_left(&mut self, landing_pos: Pos)
        requires
            old(self).wf(),
            old(self).cur_track == landing_pos.track,
            mid(landing_pos.frame as int),
        ensures
            final(self).st() == g_sentinel(old(self).fs(), old(self).st(), landing_pos, Op::Dec, Op::Inc, -1),
            final(self).cfg == old(self).cfg,
            final(self).cur_track == old(self).cur_track,
            final(self).cur_frame == Some(landing_pos.frame),
            final(self).wf(),
    {
        self.sentinel_walk(landing_pos, false, -1);
    }

    /// Walks right to the first cell holding 1, clears it, and stays there.
    pub fn go_clear_sentinel_right(&mut self, landing_pos: Pos)
        requires
            old(self).wf(),
            old(self).cur_track == landing_pos.track,
            mid(landing_pos.frame as int),
        ensures
            final(self).st() == g_sentinel(old(self).fs(), old(self).st(), landing_pos, Op::Dec, Op::Inc, 1),
            final(self).cfg == old(self).cfg,
            final(self).cur_track == old(self).cur_track,
            final(self).cur_frame == Some(landing_pos.frame),
            final(self).wf(),
    {
        self.sentinel_walk(landing_pos, false, 1);
    }

    /// Walks left to the first cell holding 1, and stays there.
    pub fn goto_sentinel_left(&mut self, landing_pos: Pos)
        requires
            old(self).wf(),
            old(self).cur_track == landing_pos.track,
            mid(landing_pos.frame as int),
        ensures
            final(self).st() == g_op(g_sentinel(old(self).fs(), old(self).st(), landing_pos, Op::Dec, Op::Inc, -1), Op::Inc),
            final(self).cfg == old(self).cfg,
            final(self).cur_track == old(self).cur_track,
            final(self).cur_frame == Some(landing_pos.frame),
            final(self).wf(),
    {
        self.go_clear_sentinel_left(landing_pos);
        self.inc();
    }

    /// Walks right to the first cell holding 1, and stays there.
    pub fn goto_sentinel_right(&mut self, landing_pos: Pos)
        requires
            old(self).wf(),
            old(self).cur_track == landing_pos.track,
            mid(landing_pos.frame as int),
        ensures
            final(self).st() == g_op(g_sentinel(old(self).fs(), old(self).st(), landing_pos, Op::Dec, Op::Inc, 1), Op::Inc),
            final(self).cfg == old(self).cfg,
            final(self).cur_track == old(self).cur_track,
            final(self).cur_frame == Some(landing_pos.frame),
            final(self).wf(),
    {
        self.go_clear_sentinel_right(landing_pos);
        self.inc();
    }

    /// Walks left to the first cell holding 255, clears it, and stays there.
    pub fn go_clear_downsentinel_left(&mut self, landing_pos: Pos)
        requires
            old(self).wf(),
            old(self).cur_track == landing_pos.track,
            mid(landing_pos.frame as int),
        ensures
            final(self).st() == g_sentinel(old(self).fs(), old(self).st(), landing_pos, Op::Inc, Op::Dec, -1),
            final(self).cfg == old(self).cfg,
            final(self).cur_track == old(self).cur_track,
            final(self).cur_frame == Some(landing_pos.frame),
            final(self).wf(),
    {
        self.sentinel_walk(landing_pos, true, -1);
    }

    /// Walks right to the first cell holding 255, clears it, and stays there.
    pub fn go_clear_downsentinel_right(&mut self, landing_pos: Pos)
        requires
            old(self).wf(),
            old(self).cur_track == landing_pos.track,
            mid(landing_pos.frame as int),
        ensures
            final(self).st() == g_sentinel(old(self).fs(), old(self).st(), landing_pos, Op::Inc, Op::Dec, 1),
            final(self).cfg == old(self).cfg,
            final(self).cur_track == old(self).cur_track,
            final(self).cur_frame == Some(landing_pos.frame),
            final(self).wf(),
    {
        self.sentinel_walk(landing_pos, true, 1);
    }

    /// Walks left to the first cell holding 255, and stays there.
    pub fn goto_downsentinel_left(&mut self, landing_pos: Pos)
        requires
            old(self).wf(),
            old(self).cur_track == landing_pos.track,
            mid(landing_pos.frame as int),
        ensures
            final(self).st() == g_op(g_sentinel(old(self).fs(), old(self).st(), landing_pos, Op::Inc, Op::Dec, -1), Op::Dec),
            final(self).cfg == old(self).cfg,
            final(self).cur_track == old(self).cur_track,
            final(self).cur_frame == Some(landing_pos.frame),
            final(self).wf(),
    {
        self.go_clear_downsentinel_left(landing_pos);
        self.dec();
    }

    /// Walks right to the first cell holding 255, and stays there.
    pub fn goto_downsentinel_right(&mut self, landing_pos: Pos)
        requires
            old(self).wf(),
            old(self).cur_track == landing_pos.track,
            mid(landing_pos.frame as int),
        ensures
            final(self).st() == g_op(g_sentinel(old(self).fs(), old(self).st(), landing_pos, Op::Inc, Op::Dec, 1), Op::Dec),
            final(self).cfg == old(self).cfg,
            final(self).cur_track == old(self).cur_track,
            final(self).cur_frame == Some(landing_pos.frame),
            final(self).wf(),
    {
        self.go_clear_downsentinel_right(landing_pos);
        self.dec();
    }
}


/// Clear the cells `slice`, `slice + 1`, ..., `slice + n - 1` (frames), in that order.
pub open spec fn g_zero_slice(fs: int, s: CpuState, slice: Pos, n: int) -> CpuState
    decreases n,
{
    if n <= 0 {
        s
    } else {
        g_clr_at(fs, g_zero_slice(fs, s, slice, n - 1), slice.shifted(n - 1))
    }
}

/// Move the slice onto the slice at `to`, first frame first.
pub open spec fn g_move_slice_up(fs: int, s: CpuState, slice: Pos, to: Pos, n: int) -> CpuState
    decreases n,
{
    if n <= 0 {
        s
    } else {
        g_moveadd(fs, g_move_slice_up(fs, s, slice, to, n - 1), slice.shifted(n - 1), to.shifted(n - 1))
    }
}

/// Move the first `n` frames of the slice onto the slice at `to`, last frame first.
pub open spec fn g_move_slice_down(fs: int, s: CpuState, slice: Pos, to: Pos, n: int) -> CpuState
    decreases n,
{
    if n <= 0 {
        s
    } else {
        g_move_slice_down(fs, g_moveadd(fs, s, slice.shifted(n - 1), to.shifted(n - 1)), slice, to, n - 1)
    }
}

/// A slice of `size` frames at `p` lies where the generator may go.
pub open spec fn slice_ok(p: Pos, size: int) -> bool {
    size <= 0 || (pos_ok(p) && pos_ok(p.shifted(size - 1)) && size <= 0x40_0000)
}

impl<'c> Cpu<'c> {
    /// Clears `size` cells of a track, from frame `slice.frame` on.
    pub fn zero_slice(&mut self, slice: Pos, size: isize)
        requires
            old(self).wf(),
            size > 0 ==> old(self).cur_frame is Some,
            slice_ok(slice, size as int),
        ensures
            final(self).st() == g_zero_slice(old(self).fs(), old(self).st(), slice, size as int),
            final(self).cfg == old(self).cfg,
            final(self).wf(),
            size > 0 ==> final(self).cur_frame is Some,
            size <= 0 ==> *final(self) == *old(self),
    {
        let ghost s0 = self.st();
        let ghost fs = self.fs();
        let mut i: isize = 0;
        while i < size
            invariant
                0 <= i,
                size > 0 ==> i <= size,
                size <= 0 ==> i == 0,
                self.wf(),
                self.cfg == old(self).cfg,
                fs == self.fs(),
                size > 0 ==> self.cur_frame is Some,
                slice_ok(slice, size as int),
                self.st() == g_zero_slice(fs, s0, slice, i as int),
                i == 0 ==> *self == *old(self),
            decreases size - i,
        {
            self.zero_byte(Pos { frame: slice.frame + i, track: slice.track });
            i = i + 1;
        }
    }

    /// Clears a register.
    pub fn zero_register(&mut self, register: Register)
        requires
            old(self).wf(),
            register.size > 0 ==> old(self).cur_frame is Some,
            fits_isize(register.offset as int),
            slice_ok(register.track.at_spec(register.offset), register.size as int),
        ensures
            final(self).st() == g_zero_slice(old(self).fs(), old(self).st(), register.track.at_spec(register.offset), register.size as int),
            final(self).cfg == old(self).cfg,
            final(self).wf(),
            register.size > 0 ==> final(self).cur_frame is Some,
    {
        self.zero_slice(register.track.at(register.offset), register.size);
    }

    /// Clears a register and hands its track out as scratch space.
    pub fn clear_register_track_to_scratch_track(&mut self, register: Register) -> (r: ScratchTrack)
        requires
            old(self).wf(),
            register.size > 0 ==> old(self).cur_frame is Some,
            fits_isize(register.offset as int),
            slice_ok(register.track.at_spec(register.offset), register.size as int),
        ensures
            r == (ScratchTrack { track: register.track, offset: 0, dont_go_left_of: None }),
            final(self).st() == g_zero_slice(old(self).fs(), old(self).st(), register.track.at_spec(register.offset), register.size as int),
            final(self).cfg == old(self).cfg,
            final(self).wf(),
    {
        self.zero_register(register);
        ScratchTrack { track: register.track, offset: 0, dont_go_left_of: None }
    }

    /// Moves `size` cells from `slice` onto the cells at `to`, which must be zero;
    /// when the slices overlap, in the order that keeps every value.
    pub fn move_slice_onto_zero_slice(&mut self, slice: Pos, size: isize, to: Pos)
        requires
            old(self).wf(),
            size > 0 ==> old(self).cur_frame is Some,
            slice_ok(slice, size as int),
            slice_ok(to, size as int),
        ensures
            final(self).st() == (if slice == to {
                old(self).st()
            } else if slice.frame < to.frame {
                g_move_slice_up(old(self).fs(), old(self).st(), slice, to, size as int)
            } else {
                g_move_slice_down(old(self).fs(), old(self).st(), slice, to, size as int)
            }),
            final(self).cfg == old(self).cfg,
            final(self).wf(),
    {
        if slice == to {
            return;
        }
        let ghost s0 = self.st();
        let ghost fs = self.fs();
        if slice.frame < to.frame {
            let mut i: isize = 0;
            while i < size
                invariant
                    0 <= i,
                    size > 0 ==> i <= size,
                    size <= 0 ==> i == 0,
                    self.wf(),
                    self.cfg == old(self).cfg,
                    fs == self.fs(),
                    size > 0 ==> self.cur_frame is Some,
                    slice_ok(slice, size as int),
                    slice_ok(to, size as int),
                    self.st() == g_move_slice_up(fs, s0, slice, to, i as int),
                decreases size - i,
            {
                let from_p = Pos { frame: slice.frame + i, track: slice.track };
                let to_p = Pos { frame: to.frame + i, track: to.track };
                self.moveadd_byte(from_p, to_p);
                i = i + 1;
            }
        } else {
            let mut i: isize = size;
            while i > 0
                invariant
                    i <= size,
                    self.wf(),
                    self.cfg == old(self).cfg,
                    fs == self.fs(),
                    size > 0 ==> self.cur_frame is Some,
                    slice_ok(slice, size as int),
                    slice_ok(to, size as int),
                    g_move_slice_down(fs, s0, slice, to, size as int) == g_move_slice_down(fs, self.st(), slice, to, i as int),
                decreases i,
            {
                let from_p = Pos { frame: slice.frame + (i - 1), track: slice.track };
                let to_p = Pos { frame: to.frame + (i - 1), track: to.track };
                self.moveadd_byte(from_p, to_p);
                i = i - 1;
            }
        }
    }

    /// Moves a register onto a register of the same size, which must be zero.
    pub fn move_onto_zero_register(&mut self, from: Register, to: Register)
        requires
            old(self).wf(),
            from.size == to.size,
            from.size > 0 ==> old(self).cur_frame is Some,
            slice_ok(from.track.at_spec(from.offset), from.size as int),
            slice_ok(to.track.at_spec(to.offset), to.size as int),
        ensures
            final(self).st() == (if from.track.at_spec(from.offset) == to.track.at_spec(to.offset) {
                old(self).st()
            } else if from.offset < to.offset {
                g_move_slice_up(old(self).fs(), old(self).st(), from.track.at_spec(from.offset), to.track.at_spec(to.offset), from.size as int)
            } else {
                g_move_slice_down(old(self).fs(), old(self).st(), from.track.at_spec(from.offset), to.track.at_spec(to.offset), from.size as int)
            }),
            final(self).cfg == old(self).cfg,
            final(self).wf(),
    {
        self.move_slice_onto_zero_slice(from.track.at(from.offset), from.size, to.track.at(to.offset));
    }
}


pub open spec fn abs(x: int) -> int {
    if x < 0 { -x } else { x }
}

pub open spec fn cell_index(fs: int, p: Pos) -> int {
    p.frame * fs + p.track
}

/// How far `p` is from `a` plus how far it is from `b`, in cells.
pub open spec fn detour(fs: int, a: Pos, b: Pos, p: Pos) -> int {
    abs(cell_index(fs, a) - cell_index(fs, p)) + abs(cell_index(fs, b) - cell_index(fs, p))
}

/// The first frame from `lo` to `hi` of the track with a smaller detour than `best`
/// and every earlier candidate.
pub open spec fn best_between(fs: int, a: Pos, b: Pos, track: Track, best: Pos, lo: int, hi: int) -> Pos
    decreases hi - lo + 1,
{
    if lo > hi {
        best
    } else {
        let p = Pos { frame: lo as isize, track: track.track_num };
        best_between(fs, a, b, track, if detour(fs, a, b, p) < detour(fs, a, b, best) { p } else { best }, lo + 1, hi)
    }
}

pub open spec fn min_int(x: int, y: int) -> int { if x < y { x } else { y } }
pub open spec fn max_int(x: int, y: int) -> int { if x < y { y } else { x } }

/// The position on `track` with the smallest detour between `a` and `b`: the
/// frames from the smaller of theirs to one past the larger are tried, and the
/// first best wins, `a`'s frame first.
pub open spec fn between_spec(fs: int, a: Pos, b: Pos, track: Track) -> Pos {
    best_between(fs, a, b, track, Pos { frame: a.frame, track: track.track_num },
        min_int(a.frame as int, b.frame as int), max_int(a.frame as int, b.frame as int) + 1)
}

/// A position on the scratch track near `a` and `b` but not at either.
pub open spec fn autoscratch_spec(fs: int, a: Pos, b: Pos, st: ScratchTrack) -> Pos {
    let p0 = between_spec(fs, a, b, st.track);
    let p1 = match st.dont_go_left_of {
        Some(l) => if p0.frame < l { Pos { frame: l, ..p0 } } else { p0 },
        None => p0,
    };
    if a == p1 {
        let p2 = p1.shifted(1);
        if b == p2 { p2.shifted(1) } else { p2 }
    } else if b == p1 {
        let p2 = p1.shifted(1);
        if a == p2 { p2.shifted(1) } else { p2 }
    } else {
        p1
    }
}

/// Frames and tracks well inside the range the generator may go to.
pub open spec fn near(p: Pos) -> bool {
    -0x3F_0000 <= p.frame <= 0x3F_0000 && mid(p.track as int)
}

impl<'c> Cpu<'c> {
    fn detour_exec(&self, a: Pos, b: Pos, p: Pos) -> (r: isize)
        requires
            self.cfg.wf(),
            mid(a.frame as int), mid(a.track as int),
            mid(b.frame as int), mid(b.track as int),
            -0x40_0001 <= p.frame <= 0x40_0001, mid(p.track as int),
        ensures r == detour(self.fs(), a, b, p),
    {
        let fs = self.cfg.frame_size();
        assert(-0x40_0001 * 7 <= a.frame * fs <= 0x40_0001 * 7) by (nonlinear_arith)
            requires -0x40_0000 <= a.frame <= 0x40_0000, 0 <= fs <= 7;
        assert(-0x40_0001 * 7 <= b.frame * fs <= 0x40_0001 * 7) by (nonlinear_arith)
            requires -0x40_0000 <= b.frame <= 0x40_0000, 0 <= fs <= 7;
        assert(-0x40_0001 * 7 <= p.frame * fs <= 0x40_0001 * 7) by (nonlinear_arith)
            requires -0x40_0001 <= p.frame <= 0x40_0001, 0 <= fs <= 7;
        let ia = a.frame * fs + a.track;
        let ib = b.frame * fs + b.track;
        let ip = p.frame * fs + p.track;
        let da = if ia < ip { ip - ia } else { ia - ip };
        let db = if ib < ip { ip - ib } else { ib - ip };
        da + db
    }

    /// The position on `track` between `a` and `b` with the smallest detour.
    pub fn get_pos_on_track_between(&self, a: Pos, b: Pos, track: Track) -> (r: Pos)
        requires
            self.cfg.wf(),
            pos_ok(a),
            pos_ok(b),
            mid(track.track_num as int),
        ensures
            r == between_spec(self.fs(), a, b, track),
            r.track == track.track_num,
            min_int(a.frame as int, b.frame as int) <= r.frame <= max_int(a.frame as int, b.frame as int) + 1,
    {
        let mut best_pos = track.at(a.frame);
        let mut best_score = self.detour_exec(a, b, best_pos);
        let lo = if a.frame < b.frame { a.frame } else { b.frame };
        let hi = (if a.frame < b.frame { b.frame } else { a.frame }) + 1;
        let mut i = lo;
        while i <= hi
            invariant
                self.cfg.wf(),
                pos_ok(a), pos_ok(b), mid(track.track_num as int),
                lo <= i <= hi + 1,
                lo == min_int(a.frame as int, b.frame as int),
                hi == max_int(a.frame as int, b.frame as int) + 1,
                best_score == detour(self.fs(), a, b, best_pos),
                best_pos.track == track.track_num,
                lo <= best_pos.frame <= hi,
                between_spec(self.fs(), a, b, track) == best_between(self.fs(), a, b, track, best_pos, i as int, hi as int),
            decreases hi - i + 1,
        {
            let pos = track.at(i);
            let score = self.detour_exec(a, b, pos);
            if score < best_score {
                best_pos = pos;
                best_score = score;
            }
            i = i + 1;
        }
        best_pos
    }

    /// A position on the scratch track near `a` and `b`, but not at either of them.
    pub fn get_autoscratch(&self, a: Pos, b: Pos, scratch_track: ScratchTrack) -> (r: Pos)
        requires
            self.cfg.wf(),
            near(a),
            near(b),
            scratch_track.wf(),
            mid(scratch_track.track.track_num as int),
        ensures
            r == autoscratch_spec(self.fs(), a, b, scratch_track),
            r != a,
            r != b,
            pos_ok(r),
            r.track == scratch_track.track.track_num,
    {
        let mut scratch = self.get_pos_on_track_between(a, b, scratch_track.track);
        if let Some(l) = scratch_track.dont_go_left_of {
            if scratch.frame < l {
                scratch.frame = l;
            }
        }
        if a == scratch {
            scratch.frame = scratch.frame + 1;
            if b == scratch {
                scratch.frame = scratch.frame + 1;
            }
        } else if b == scratch {
            scratch.frame = scratch.frame + 1;
            if a == scratch {
                scratch.frame = scratch.frame + 1;
            }
        }
        scratch
    }
}


/// Print the byte `x` from the cell `scratch`, which must be zero and is left zero.
pub open spec fn g_print_byte(fs: int, s: CpuState, x: u8, scratch: Pos) -> CpuState {
    g_clr(g_op(g_add_const(fs, s, scratch, x), Op::Out))
}

/// A character the generated code can print: character codes 9 to 126.
pub open spec fn printable(c: char) -> bool {
    8 < (c as u32) < 127
}

pub open spec fn g_print_text(fs: int, s: CpuState, text: Seq<char>, scratch: Pos) -> CpuState
    decreases text.len(),
{
    if text.len() == 0 {
        s
    } else {
        g_print_byte(fs, g_print_text(fs, s, text.drop_last(), scratch), text.last() as u8, scratch)
    }
}

/// Print the digit in the cell and clear it.
pub open spec fn g_moveprint_digit(fs: int, s: CpuState, pos: Pos) -> CpuState {
    g_clr(g_op(g_add_const(fs, s, pos, 48), Op::Out))
}

/// Print the digit in the cell, unless it is zero, and clear it.
pub open spec fn g_moveprint_digit_if_nonzero(fs: int, s: CpuState, pos: Pos) -> CpuState {
    g_loop_while(fs, s, pos, |c: CpuState| g_clr(g_op(g_add_const(fs, c, pos, 48), Op::Out)))
}

impl<'c> Cpu<'c> {
    /// Prints `c` through the cell `scratch`, which must be zero and is left zero.
    pub fn print_char(&mut self, c: char, scratch: Pos)
        requires
            old(self).can_goto(scratch),
            printable(c),
        ensures
            final(self).st() == g_print_byte(old(self).fs(), old(self).st(), c as u8, scratch),
            final(self).cfg == old(self).cfg,
            final(self).wf(),
            final(self).cur_frame == Some(scratch.frame),
            final(self).cur_track == scratch.track,
    {
        let x = c as u32;
        let x = x as u8;
        self.add_const_to_byte(scratch, x);
        self.out();
        self.clr();
    }

    /// Prints `s` through the first cell of the scratch track.
    pub fn print_text(&mut self, s: &str, scratch_track: ScratchTrack)
        requires
            scratch_track.wf(),
            old(self).can_goto(scratch_track.first()),
            forall|i: int| 0 <= i < s@.len() ==> printable(#[trigger] s@[i]),
        ensures
            final(self).st() == g_print_text(old(self).fs(), old(self).st(), s@, scratch_track.first()),
            final(self).cfg == old(self).cfg,
            final(self).wf(),
            final(self).cur_frame is Some,
    {
        let (pos, _) = scratch_track.split_1();
        let cs = crate::bf::str_chars(s);
        let ghost s0 = self.st();
        let mut i: usize = 0;
        assert(cs@.take(0) =~= Seq::<char>::empty());
        while i < cs.len()
            invariant
                0 <= i <= cs@.len(),
                cs@ == s@,
                pos == scratch_track.first(),
                self.can_goto(pos),
                self.cfg == old(self).cfg,
                s0 == old(self).st(),
                forall|j: int| 0 <= j < s@.len() ==> printable(#[trigger] s@[j]),
                self.st() == g_print_text(self.fs(), s0, cs@.take(i as int), pos),
            decreases cs@.len() - i,
        {
            assert(cs@.take(i + 1).drop_last() =~= cs@.take(i as int));
            assert(printable(s@[i as int]));
            self.print_char(cs[i], pos);
            i = i + 1;
        }
        assert(cs@.take(i as int) =~= s@);
    }

    /// Prints a line feed through the first cell of the scratch track.
    pub fn print_newline(&mut self, scratch_track: ScratchTrack)
        requires
            scratch_track.wf(),
            old(self).can_goto(scratch_track.first()),
        ensures
            final(self).st() == g_print_byte(old(self).fs(), old(self).st(), 10, scratch_track.first()),
            final(self).cfg == old(self).cfg,
            final(self).wf(),
    {
        self.print_char('\n', scratch_track.split_1().0);
    }

    /// Prints the digit (0 to 9) in the cell, and clears it.
    pub fn moveprint_digit(&mut self, pos: Pos)
        requires old(self).can_goto(pos),
        ensures
            final(self).st() == g_moveprint_digit(old(self).fs(), old(self).st(), pos),
            final(self).cfg == old(self).cfg,
            final(self).wf(),
            final(self).cur_frame == Some(pos.frame),
            final(self).cur_track == pos.track,
    {
        self.add_const_to_byte(pos, 48);
        self.out();
        self.clr();
    }

    /// Prints the digit in the cell unless it is zero, and clears it.
    pub fn moveprint_digit_if_nonzero(&mut self, pos: Pos)
        requires old(self).can_goto(pos),
        ensures
            final(self).st() == g_moveprint_digit_if_nonzero(old(self).fs(), old(self).st(), pos),
            final(self).cfg == old(self).cfg,
            final(self).wf(),
            final(self).cur_frame == Some(pos.frame),
            final(self).cur_track == pos.track,
    {
        self.goto(pos);
        let mut c = self.child();
        c.add_const_to_byte(pos, 48);
        c.out();
        c.clr();
        proof { lemma_goto_here(c.fs(), c.st(), pos); }
        self.close_loop_at(pos, c);
    }
}


/// `to += from` through a scratch cell chosen near them.
pub open spec fn g_copy_auto(fs: int, s: CpuState, from: Pos, to: Pos, st: ScratchTrack) -> CpuState {
    if from == to {
        s
    } else {
        g_copy_byte(fs, s, from, to, autoscratch_spec(fs, from, to, st))
    }
}

/// `from -= sub` through a scratch cell chosen near them.
pub open spec fn g_sub_auto(fs: int, s: CpuState, sub: Pos, from: Pos, st: ScratchTrack) -> CpuState {
    let s1 = if sub == from { g_clr_at(fs, s, sub) } else { s };
    g_sub_byte_from(fs, s1, sub, from, autoscratch_spec(fs, sub, from, st))
}

pub open spec fn g_copy_slice_up(fs: int, s: CpuState, slice: Pos, to: Pos, n: int, st: ScratchTrack) -> CpuState
    decreases n,
{
    if n <= 0 {
        s
    } else {
        g_copy_auto(fs, g_copy_slice_up(fs, s, slice, to, n - 1, st), slice.shifted(n - 1), to.shifted(n - 1), st)
    }
}

pub open spec fn g_copy_slice_down(fs: int, s: CpuState, slice: Pos, to: Pos, n: int, st: ScratchTrack) -> CpuState
    decreases n,
{
    if n <= 0 {
        s
    } else {
        g_copy_slice_down(fs, g_copy_auto(fs, s, slice.shifted(n - 1), to.shifted(n - 1), st), slice, to, n - 1, st)
    }
}

/// A slice well inside the range the generator may go to.
pub open spec fn near_slice(p: Pos, size: int) -> bool {
    size <= 0 || (near(p) && near(p.shifted(size - 1)) && size <= 0x40_0000)
}

/// A scratch track the generator may pick cells on.
pub open spec fn scratch_ok(st: ScratchTrack) -> bool {
    st.wf() && mid(st.track.track_num as int)
}

impl<'c> Cpu<'c> {
    /// Does `to += from` through a scratch cell near them.
    pub fn copy_byte_autoscratch(&mut self, from: Pos, to: Pos, scratch_track: ScratchTrack)
        requires
            old(self).wf(),
            old(self).cur_frame is Some,
            near(from),
            near(to),
            scratch_ok(scratch_track),
        ensures
            final(self).st() == g_copy_auto(old(self).fs(), old(self).st(), from, to, scratch_track),
            final(self).cfg == old(self).cfg,
            final(self).wf(),
            final(self).cur_frame is Some,
    {
        if from == to {
            return;
        }
        let scratch = self.get_autoscratch(from, to, scratch_track);
        self.copy_byte(from, to, scratch);
    }

    /// Does `from -= sub` through a scratch cell near them.
    pub fn sub_byte_autoscratch(&mut self, sub: Pos, from: Pos, scratch_track: ScratchTrack)
        requires
            old(self).wf(),
            old(self).cur_frame is Some,
            near(sub),
            near(from),
            scratch_ok(scratch_track),
        ensures
            final(self).st() == g_sub_auto(old(self).fs(), old(self).st(), sub, from, scratch_track),
            final(self).cfg == old(self).cfg,
            final(self).wf(),
            final(self).cur_frame is Some,
    {
        if sub == from {
            self.clr_at(sub);
        }
        let scratch = self.get_autoscratch(sub, from, scratch_track);
        self.sub_byte_from(sub, from, scratch);
    }

    /// Adds the `size` cells from `slice` onto the cells at `to`; when the slices
    /// overlap, in the order that keeps every value.
    pub fn copy_slice(&mut self, slice: Pos, size: isize, to: Pos, scratch_track: ScratchTrack)
        requires
            old(self).wf(),
            size > 0 ==> old(self).cur_frame is Some,
            near_slice(slice, size as int),
            near_slice(to, size as int),
            scratch_ok(scratch_track),
        ensures
            final(self).st() == (if slice == to {
                old(self).st()
            } else if slice.frame < to.frame {
                g_copy_slice_up(old(self).fs(), old(self).st(), slice, to, size as int, scratch_track)
            } else {
                g_copy_slice_down(old(self).fs(), old(self).st(), slice, to, size as int, scratch_track)
            }),
            final(self).cfg == old(self).cfg,
            final(self).wf(),
            (size > 0 || old(self).cur_frame is Some) ==> final(self).cur_frame is Some,
    {
        if slice == to {
            return;
        }
        let ghost s0 = self.st();
        let ghost fs = self.fs();
        if slice.frame < to.frame {
            let mut i: isize = 0;
            while i < size
                invariant
                    0 <= i,
                    size > 0 ==> i <= size,
                    size <= 0 ==> i == 0,
                    self.wf(),
                    self.cfg == old(self).cfg,
                    fs == self.fs(),
                    size > 0 ==> self.cur_frame is Some,
                    i == 0 ==> self.cur_frame == old(self).cur_frame,
                    near_slice(slice, size as int),
                    near_slice(to, size as int),
                    scratch_ok(scratch_track),
                    self.st() == g_copy_slice_up(fs, s0, slice, to, i as int, scratch_track),
                decreases size - i,
            {
                let from_p = Pos { frame: slice.frame + i, track: slice.track };
                let to_p = Pos { frame: to.frame + i, track: to.track };
                self.copy_byte_autoscratch(from_p, to_p, scratch_track);
                i = i + 1;
            }
        } else {
            let mut i: isize = size;
            while i > 0
                invariant
                    i <= size,
                    self.wf(),
                    self.cfg == old(self).cfg,
                    fs == self.fs(),
                    size > 0 ==> self.cur_frame is Some,
                    i == size ==> self.cur_frame == old(self).cur_frame,
                    near_slice(slice, size as int),
                    near_slice(to, size as int),
                    scratch_ok(scratch_track),
                    g_copy_slice_down(fs, s0, slice, to, size as int, scratch_track)
                        == g_copy_slice_down(fs, self.st(), slice, to, i as int, scratch_track),
                decreases i,
            {
                let from_p = Pos { frame: slice.frame + (i - 1), track: slice.track };
                let to_p = Pos { frame: to.frame + (i - 1), track: to.track };
                self.copy_byte_autoscratch(from_p, to_p, scratch_track);
                i = i - 1;
            }
        }
    }
}


/// Register position `i` (frame `offset + i` of its track).
pub open spec fn reg_at(r: Register, i: int) -> Pos {
    Pos { frame: (i + r.offset) as isize, track: r.track.track_num }
}

/// `x += 1`, and `carry -= 1` unless `x` became zero (so a zero carry becomes 1
/// exactly when `x` wraps), through the zero cell `xc`.
pub open spec fn g_inc_carry(fs: int, s: CpuState, x: Pos, carry: Pos, xc: Pos) -> CpuState {
    let s1 = g_op_at(fs, g_op_at(fs, s, carry, Op::Inc), x, Op::Inc);
    let s2 = g_loop_while(fs, s1, x, |c: CpuState| g_op_at(fs, g_moveadd(fs, c, x, xc), carry, Op::Dec));
    g_moveadd(fs, s2, xc, x)
}

/// `x -= 1`, and `carry` becomes 1 exactly when `x` was zero, through the zero cell `xc`.
pub open spec fn g_dec_carry(fs: int, s: CpuState, x: Pos, carry: Pos, xc: Pos) -> CpuState {
    let s1 = g_op_at(fs, s, carry, Op::Inc);
    let s2 = g_loop_while(fs, s1, x, |c: CpuState| g_op_at(fs, g_moveadd(fs, c, x, xc), carry, Op::Dec));
    g_op_at(fs, g_moveadd(fs, s2, xc, x), x, Op::Dec)
}

/// Every cell of the register lies where the generator may go.
pub open spec fn reg_ok(r: Register) -> bool {
    &&& 1 <= r.size <= 0x1000
    &&& -0x3F_0000 <= r.offset
    &&& r.offset + r.size <= 0x3F_0000
    &&& mid(r.track.track_num as int)
}

/// The register without its last cell.
pub open spec fn reg_init(r: Register) -> Register {
    Register { size: (r.size - 1) as isize, ..r }
}

/// The scratch cells a register operation may use lie where the generator may go.
pub open spec fn scratch_room(st: ScratchTrack) -> bool {
    &&& scratch_ok(st)
    &&& st.left_limit() <= 0xF_0000
}

pub open spec fn g_inc_register(fs: int, s: CpuState, a: Register, st: ScratchTrack) -> CpuState
    decreases a.size,
{
    if a.size <= 1 {
        g_op_at(fs, s, reg_at(a, 0), Op::Inc)
    } else {
        let carry = st.first();
        let s1 = g_inc_carry(fs, s, reg_at(a, a.size - 1), carry, st.spec_split(1).first());
        g_loop_while(fs, s1, carry, |c: CpuState| g_inc_register(fs, g_op_at(fs, c, carry, Op::Dec), reg_init(a), st))
    }
}

pub open spec fn g_dec_register(fs: int, s: CpuState, a: Register, st: ScratchTrack) -> CpuState
    decreases a.size,
{
    if a.size <= 1 {
        g_op_at(fs, s, reg_at(a, 0), Op::Dec)
    } else {
        let carry = st.first();
        let s1 = g_dec_carry(fs, s, reg_at(a, a.size - 1), carry, st.spec_split(1).first());
        g_loop_while(fs, s1, carry, |c: CpuState| g_dec_register(fs, g_op_at(fs, c, carry, Op::Dec), reg_init(a), st))
    }
}

impl<'c> Cpu<'c> {
    /// Increments `x`; `carry` (which must be zero) becomes 1 if `x` wrapped to zero.
    pub fn inc_byte_with_carry(&mut self, x: Pos, carry: Pos, scratch_track: ScratchTrack)
        requires
            old(self).can_goto(carry),
            pos_ok(x),
            scratch_ok(scratch_track),
        ensures
            final(self).st() == g_inc_carry(old(self).fs(), old(self).st(), x, carry, scratch_track.first()),
            final(self).cfg == old(self).cfg,
            final(self).wf(),
            final(self).cur_frame is Some,
    {
        let (x_cpy, _) = scratch_track.split_1();
        self.inc_at(carry);
        self.inc_at(x);
        self.goto(x);
        let mut c = self.child();
        c.moveadd_byte(x, x_cpy);
        c.dec_at(carry);
        self.close_loop_at(x, c);
        proof { lemma_goto_here(self.fs(), self.st(), x); }
        self.moveadd_byte(x_cpy, x);
    }

    /// Decrements `x`; `carry` (which must be zero) becomes 1 if `x` was zero.
    pub fn dec_byte_with_carry(&mut self, x: Pos, carry: Pos, scratch_track: ScratchTrack)
        requires
            old(self).can_goto(carry),
            pos_ok(x),
            scratch_ok(scratch_track),
        ensures
            final(self).st() == g_dec_carry(old(self).fs(), old(self).st(), x, carry, scratch_track.first()),
            final(self).cfg == old(self).cfg,
            final(self).wf(),
            final(self).cur_frame is Some,
    {
        let (x_cpy, _) = scratch_track.split_1();
        self.inc_at(carry);
        self.goto(x);
        let mut c = self.child();
        c.moveadd_byte(x, x_cpy);
        c.dec_at(carry);
        self.close_loop_at(x, c);
        proof { lemma_goto_here(self.fs(), self.st(), x); }
        self.moveadd_byte(x_cpy, x);
        self.dec_at(x);
    }

    /// Increments a big-endian register of bytes, carrying into the higher bytes.
    pub fn inc_register(&mut self, a: Register, scratch_track: ScratchTrack)
        requires
            old(self).wf(),
            old(self).cur_frame is Some,
            reg_ok(a),
            scratch_room(scratch_track),
        ensures
            final(self).st() == g_inc_register(old(self).fs(), old(self).st(), a, scratch_track),
            final(self).cfg == old(self).cfg,
            final(self).wf(),
            final(self).cur_frame is Some,
        decreases a.size,
    {
        if a.size > 1 {
            let (carry, scratch_track2) = scratch_track.split_1();
            self.inc_byte_with_carry(a.last_pos(), carry, scratch_track2);
            self.goto(carry);
            let mut c = self.child();
            c.dec_at(carry);
            c.inc_register(a.subview(0, a.size - 1), scratch_track);
            self.close_loop_at(carry, c);
            proof { lemma_goto_here(self.fs(), self.st(), carry); }
        } else {
            self.inc_at(a.at(0));
        }
    }

    /// Decrements a big-endian register of bytes, borrowing from the higher bytes.
    pub fn dec_register(&mut self, a: Register, scratch_track: ScratchTrack)
        requires
            old(self).wf(),
            old(self).cur_frame is Some,
            reg_ok(a),
            scratch_room(scratch_track),
        ensures
            final(self).st() == g_dec_register(old(self).fs(), old(self).st(), a, scratch_track),
            final(self).cfg == old(self).cfg,
            final(self).wf(),
            final(self).cur_frame is Some,
        decreases a.size,
    {
        if a.size > 1 {
            let (carry, scratch_track2) = scratch_track.split_1();
            self.dec_byte_with_carry(a.last_pos(), carry, scratch_track2);
            self.goto(carry);
            let mut c = self.child();
            c.dec_at(carry);
            c.dec_register(a.subview(0, a.size - 1), scratch_track);
            self.close_loop_at(carry, c);
            proof { lemma_goto_here(self.fs(), self.st(), carry); }
        } else {
            self.dec_at(a.at(0));
        }
    }
}


/// `b += a` with a carry into `carry` for each wrap of `b`, and `a = 0`.
pub open spec fn g_madd_carry(fs: int, s: CpuState, a: Pos, b: Pos, carry: Pos, st: ScratchTrack) -> CpuState {
    g_loop_while(fs, s, a, |c: CpuState| g_inc_carry(fs, g_op(c, Op::Dec), b, carry, st.first()))
}

/// The cells that `moveadd_registers` adds one into another are distinct.
pub open spec fn madd_regs_ok(a: Register, b: Register, sr: Register) -> bool {
    forall|i: int| 0 < i < a.size ==> {
        &&& reg_at(a, i) != reg_at(b, i)
        &&& reg_at(b, i) != reg_at(sr, i - 1)
        &&& reg_at(a, i) != reg_at(sr, i - 1)
        &&& reg_at(sr, i - 1) != reg_at(b, i - 1)
        &&& (i > 1 ==> reg_at(b, i - 1) != reg_at(sr, i - 2))
    }
}

/// Step `k` of adding register `a` into `b` (from the last byte to the first),
/// carrying through the scratch register `sr`.
pub open spec fn g_madd_regs_step(fs: int, s: CpuState, a: Register, b: Register, sr: Register, st: ScratchTrack, k: int) -> CpuState {
    if k > 0 {
        let s1 = g_madd_carry(fs, s, reg_at(a, k), reg_at(b, k), reg_at(sr, k - 1), st);
        if k > 1 {
            g_madd_carry(fs, s1, reg_at(sr, k - 1), reg_at(b, k - 1), reg_at(sr, k - 2), st)
        } else {
            g_moveadd(fs, s1, reg_at(sr, k - 1), reg_at(b, k - 1))
        }
    } else {
        g_moveadd(fs, s, reg_at(a, 0), reg_at(b, 0))
    }
}

/// Steps `n - 1` down to 0.
pub open spec fn g_madd_regs(fs: int, s: CpuState, a: Register, b: Register, sr: Register, st: ScratchTrack, n: int) -> CpuState
    decreases n,
{
    if n <= 0 {
        s
    } else {
        g_madd_regs(fs, g_madd_regs_step(fs, s, a, b, sr, st, n - 1), a, b, sr, st, n - 1)
    }
}

/// The register that `split_register` takes off the scratch track.
pub open spec fn split_reg_spec(st: ScratchTrack, size: int) -> Register {
    Register { offset: (st.left_limit() - st.offset) as isize, size: size as isize, track: st.track }
}

impl<'c> Cpu<'c> {
    /// Does `b += a` and `a = 0`, adding 1 to `carry` each time `b` wraps.
    pub fn moveadd_byte_with_carry(&mut self, a: Pos, b: Pos, carry: Pos, scratch_track: ScratchTrack)
        requires
            old(self).can_goto(a),
            pos_ok(b),
            pos_ok(carry),
            a != b,
            b != carry,
            a != carry,
            scratch_ok(scratch_track),
        ensures
            final(self).st() == g_madd_carry(old(self).fs(), old(self).st(), a, b, carry, scratch_track),
            final(self).cfg == old(self).cfg,
            final(self).wf(),
            final(self).cur_frame == Some(a.frame),
            final(self).cur_track == a.track,
    {
        self.goto(a);
        let mut c = self.child();
        c.dec();
        c.inc_byte_with_carry(b, carry, scratch_track);
        self.close_loop_at(a, c);
    }

    /// Adds register `a` into register `b` (big-endian, carrying into the higher
    /// bytes), and clears `a`.
    pub fn moveadd_registers(&mut self, a: Register, b: Register, scratch_track: ScratchTrack)
        requires
            old(self).wf(),
            old(self).cur_frame is Some,
            a.size == b.size,
            reg_ok(a),
            reg_ok(b),
            scratch_room(scratch_track),
            scratch_track.left_limit() + a.size <= 0xF_0000,
            madd_regs_ok(a, b, split_reg_spec(scratch_track, a.size as int)),
        ensures
            final(self).st() == g_madd_regs(old(self).fs(), old(self).st(), a, b,
                split_reg_spec(scratch_track, a.size as int), scratch_track.spec_split(a.size as int), a.size as int),
            final(self).cfg == old(self).cfg,
            final(self).wf(),
            final(self).cur_frame is Some,
    {
        let ghost st0 = scratch_track;
        let (scratch_register, scratch_track) = scratch_track.split_register(a.size);
        let ghost sr = scratch_register;
        let ghost s0 = self.st();
        let ghost fs = self.fs();
        let mut i: isize = a.size;
        while i > 0
            invariant
                0 <= i <= a.size,
                self.wf(),
                self.cur_frame is Some,
                self.cfg == old(self).cfg,
                fs == self.fs(),
                a.size == b.size,
                reg_ok(a),
                reg_ok(b),
                scratch_ok(scratch_track),
                sr == scratch_register,
                sr == split_reg_spec(st0, a.size as int),
                scratch_track == st0.spec_split(a.size as int),
                st0.left_limit() + a.size <= 0xF_0000,
                scratch_room(st0),
                madd_regs_ok(a, b, sr),
                g_madd_regs(fs, s0, a, b, sr, scratch_track, a.size as int)
                    == g_madd_regs(fs, self.st(), a, b, sr, scratch_track, i as int),
            decreases i,
        {
            let k = i - 1;
            if k > 0 {
                assert(reg_at(a, k as int) != reg_at(b, k as int));
                self.moveadd_byte_with_carry(a.at(k), b.at(k), scratch_register.at(k - 1), scratch_track);
                if k > 1 {
                    self.moveadd_byte_with_carry(scratch_register.at(k - 1), b.at(k - 1), scratch_register.at(k - 2), scratch_track);
                } else {
                    self.moveadd_byte(scratch_register.at(k - 1), b.at(k - 1));
                }
            } else {
                self.moveadd_byte(a.at(k), b.at(k));
            }
            i = i - 1;
        }
    }
}


/// `v` has at most `n` base-256 digits.
pub open spec fn fits_bytes(v: nat, n: int) -> bool
    decreases v,
{
    if v == 0 {
        true
    } else if n <= 0 {
        false
    } else {
        fits_bytes(v / 256, n - 1)
    }
}

/// Set the bytes of the register to the base-256 digits of `v`, last byte first,
/// the `i`-th from the end being the next; bytes above the highest digit are not touched.
pub open spec fn g_set_register(fs: int, s: CpuState, r: Register, v: nat, i: int) -> CpuState
    decreases v,
{
    if v == 0 {
        s
    } else {
        g_set_register(fs, g_set_byte(fs, s, reg_at(r, r.size - i - 1), (v % 256) as u8), r, v / 256, i + 1)
    }
}

impl<'c> Cpu<'c> {
    /// Adds `val` to `pos`, adding 1 to `carry` if it wraps.
    pub fn add_const_to_byte_with_carry(&mut self, pos: Pos, val: u8, carry: Pos, scratch_track: ScratchTrack)
        requires
            old(self).wf(),
            old(self).cur_frame is Some,
            pos_ok(pos),
            pos_ok(carry),
            pos != carry,
            scratch_room(scratch_track),
            pos != scratch_track.first(),
            carry != scratch_track.first(),
        ensures
            final(self).st() == g_madd_carry(old(self).fs(),
                g_set_byte(old(self).fs(), old(self).st(), scratch_track.first(), val),
                scratch_track.first(), pos, carry, scratch_track.spec_split(1)),
            final(self).cfg == old(self).cfg,
            final(self).wf(),
            final(self).cur_frame is Some,
    {
        let (val_byte, scratch_track) = scratch_track.split_1();
        self.set_byte(val_byte, val);
        self.moveadd_byte_with_carry(val_byte, pos, carry, scratch_track);
    }

    /// Sets the register to `val`: its bytes from the last one up get the
    /// base-256 digits of `val`; the bytes above the highest digit are left as they are.
    pub fn set_register(&mut self, register: Register, val: u64)
        requires
            old(self).wf(),
            val != 0 ==> old(self).cur_frame is Some,
            reg_ok(register),
            fits_bytes(val as nat, register.size as int),
        ensures
            final(self).st() == g_set_register(old(self).fs(), old(self).st(), register, val as nat, 0),
            final(self).cfg == old(self).cfg,
            final(self).wf(),
            old(self).cur_frame is Some ==> final(self).cur_frame is Some,
    {
        let ghost fs = self.fs();
        let mut div = val;
        let mut i: isize = 0;
        while div != 0
            invariant
                0 <= i <= register.size,
                self.wf(),
                div != 0 ==> self.cur_frame is Some,
                old(self).cur_frame is Some ==> self.cur_frame is Some,
                self.cfg == old(self).cfg,
                fs == self.fs(),
                reg_ok(register),
                fits_bytes(div as nat, register.size - i),
                g_set_register(fs, old(self).st(), register, val as nat, 0)
                    == g_set_register(fs, self.st(), register, div as nat, i as int),
            decreases div,
        {
            let rem = (div % 256) as u8;
            self.set_byte(register.at(register.size - i - 1), rem);
            div = div / 256;
            i = i + 1;
        }
    }

    /// Adds `val` to the register, through a scratch register.
    pub fn add_const_to_register(&mut self, register: Register, val: u64, scratch_track: ScratchTrack)
        requires
            old(self).wf(),
            old(self).cur_frame is Some,
            reg_ok(register),
            fits_bytes(val as nat, register.size as int),
            scratch_room(scratch_track),
            scratch_track.left_limit() + 2 * register.size <= 0xF_0000,
            madd_regs_ok(split_reg_spec(scratch_track, register.size as int), register,
                split_reg_spec(scratch_track.spec_split(register.size as int), register.size as int)),
        ensures
            final(self).st() == g_madd_regs(old(self).fs(),
                g_set_register(old(self).fs(), old(self).st(), split_reg_spec(scratch_track, register.size as int), val as nat, 0),
                split_reg_spec(scratch_track, register.size as int), register,
                split_reg_spec(scratch_track.spec_split(register.size as int), register.size as int),
                scratch_track.spec_split(register.size as int).spec_split(register.size as int), register.size as int),
            final(self).cfg == old(self).cfg,
            final(self).wf(),
    {
        let (val_register, scratch_track) = scratch_track.split_register(register.size);
        self.set_register(val_register, val);
        self.moveadd_registers(val_register, register, scratch_track);
    }
}


/// Run `th` if the cell `cond` is not zero and `el` if it is, keeping `cond`:
/// the value is moved to the first scratch cell and back, and the second scratch
/// cell records that the first branch did not run.
pub open spec fn g_if_nonzero_else(fs: int, s: CpuState, cond: Pos, st: ScratchTrack,
    th: spec_fn(CpuState) -> CpuState, el: spec_fn(CpuState) -> CpuState) -> CpuState {
    let cc = st.first();
    let fz = st.first().shifted(1);
    let s1 = g_moveadd(fs, s, cond, cc);
    let s2 = g_loop_while(fs, s1, cc, |c: CpuState| g_op_at(fs, th(g_moveadd(fs, c, cc, cond)), fz, Op::Dec));
    let s3 = g_op_at(fs, s2, fz, Op::Inc);
    g_loop_while(fs, s3, fz, |c: CpuState| el(g_op(c, Op::Dec)))
}

impl<'c> Cpu<'c> {
    /// Opens the first branch of an if-nonzero-else on `cond`: returns the generator
    /// for the branch body, after the value of `cond` has been moved back.
    pub(crate) fn ine_open(&mut self, cond: Pos, st: ScratchTrack) -> (c: Cpu<'c>)
        requires
            old(self).can_goto(cond),
            scratch_ok(st),
        ensures
            final(self).st() == g_goto(old(self).fs(), g_moveadd(old(self).fs(), old(self).st(), cond, st.first()), st.first()),
            c.st() == g_moveadd(old(self).fs(), child(final(self).st()), st.first(), cond),
            final(self).cfg == old(self).cfg,
            c.cfg == old(self).cfg,
            final(self).wf(),
            c.wf(),
            c.cur_frame is Some,
            final(self).cur_frame == Some(st.first().frame),
            final(self).cur_track == st.first().track,
    {
        let cc = st.first_pos();
        self.moveadd_byte(cond, cc);
        self.goto(cc);
        let mut c = self.child();
        c.moveadd_byte(cc, cond);
        c
    }

    /// Closes the first branch (generated by `c`) and opens the second: returns its generator.
    pub(crate) fn ine_middle(&mut self, c: Cpu<'c>, st: ScratchTrack) -> (c2: Cpu<'c>)
        requires
            c.wf(),
            c.cur_frame is Some,
            c.cfg == old(self).cfg,
            old(self).wf(),
            old(self).cur_frame == Some(st.first().frame),
            old(self).cur_track == st.first().track,
            scratch_ok(st),
        ensures
            final(self).st() == g_goto(old(self).fs(), g_op_at(old(self).fs(),
                g_op(old(self).st(), Op::Loop(g_goto(old(self).fs(), g_op_at(old(self).fs(), c.st(), st.first().shifted(1), Op::Dec), st.first()).code)),
                st.first().shifted(1), Op::Inc), st.first().shifted(1)),
            c2.st() == g_op(child(final(self).st()), Op::Dec),
            final(self).cfg == old(self).cfg,
            c2.cfg == old(self).cfg,
            final(self).wf(),
            c2.wf(),
            c2.cur_frame is Some,
            final(self).cur_frame == Some(st.first().shifted(1).frame),
            final(self).cur_track == st.first().track,
    {
        let cc = st.first_pos();
        let fz = Pos { frame: cc.frame + 1, track: cc.track };
        let mut c = c;
        c.dec_at(fz);
        self.close_loop_at(cc, c);
        self.inc_at(fz);
        self.goto(fz);
        let mut c2 = self.child();
        c2.dec();
        c2
    }

    /// Closes the second branch.
    pub(crate) fn ine_close(&mut self, c2: Cpu<'c>, st: ScratchTrack)
        requires
            c2.wf(),
            c2.cur_frame is Some,
            c2.cfg == old(self).cfg,
            old(self).wf(),
            old(self).cur_frame == Some(st.first().shifted(1).frame),
            old(self).cur_track == st.first().track,
            scratch_ok(st),
        ensures
            final(self).st() == g_op(old(self).st(), Op::Loop(g_goto(old(self).fs(), c2.st(), st.first().shifted(1)).code)),
            final(self).cfg == old(self).cfg,
            final(self).wf(),
            final(self).cur_frame == old(self).cur_frame,
            final(self).cur_track == old(self).cur_track,
    {
        let cc = st.first_pos();
        let fz = Pos { frame: cc.frame + 1, track: cc.track };
        self.close_loop_at(fz, c2);
    }

    /// Turns a nonzero cell into 0 and a zero cell into 1.
    pub fn not(&mut self, pos: Pos, scratch_track: ScratchTrack)
        requires
            old(self).can_goto(pos),
            scratch_ok(scratch_track),
        ensures
            final(self).st() == g_if_nonzero_else(old(self).fs(), old(self).st(), pos, scratch_track,
                |c: CpuState| g_clr_at(old(self).fs(), c, pos), |c: CpuState| g_op_at(old(self).fs(), c, pos, Op::Inc)),
            final(self).cfg == old(self).cfg,
            final(self).wf(),
            final(self).cur_frame is Some,
    {
        let ghost fs = self.fs();
        let mut c = self.ine_open(pos, scratch_track);
        c.clr_at(pos);
        let mut c2 = self.ine_middle(c, scratch_track);
        c2.inc_at(pos);
        self.ine_close(c2, scratch_track);
    }
}

impl ScratchTrack {
    /// The first usable position.
    pub(crate) fn first_pos(&self) -> (r: Pos)
        requires self.wf(),
        ensures r == self.first(),
    {
        Pos { frame: self.limit(), track: self.track.track_num }
    }
}


/// `to -= from`, but not below zero; `from = 0`.
pub open spec fn g_movesub_clamped(fs: int, s: CpuState, from: Pos, to: Pos, st: ScratchTrack) -> CpuState {
    let s1 = if from == to { g_clr_at(fs, g_clr_at(fs, s, from), to) } else { s };
    g_loop_while(fs, s1, from, |c: CpuState| g_if_nonzero_else(fs, g_op(c, Op::Dec), to, st,
        |c2: CpuState| g_op_at(fs, c2, to, Op::Dec), |c2: CpuState| g_clr_at(fs, c2, from)))
}

/// Print the hexadecimal digit (0 to 15) in the cell, and clear it.
pub open spec fn g_moveprint_hex_digit(fs: int, s: CpuState, pos: Pos, st: ScratchTrack) -> CpuState {
    let byte_cpy = st.first();
    let zero = st.first().shifted(1);
    let rest = st.spec_split(2);
    let s1 = g_copy_byte(fs, s, pos, byte_cpy, zero);
    let s2 = g_add_const(fs, g_add_const(fs, s1, pos, 48), zero, 9);
    let s3 = g_movesub_clamped(fs, s2, zero, byte_cpy, rest);
    let s4 = g_if_nonzero_else(fs, s3, byte_cpy, rest,
        |c: CpuState| g_clr(g_op(g_emit(g_goto(fs, c, pos), Seq::new(7, |i: int| Op::Inc)), Op::Out)),
        |c: CpuState| g_clr(g_op(g_goto(fs, c, pos), Op::Out)));
    g_clr_at(fs, g_clr_at(fs, s4, byte_cpy), pos)
}

impl<'c> Cpu<'c> {
    /// Does `to -= from`, stopping at zero, and clears `from`.
    pub fn movesub_byte_clamped(&mut self, from: Pos, to: Pos, scratch_track: ScratchTrack)
        requires
            old(self).can_goto(from),
            pos_ok(to),
            scratch_ok(scratch_track),
        ensures
            final(self).st() == g_movesub_clamped(old(self).fs(), old(self).st(), from, to, scratch_track),
            final(self).cfg == old(self).cfg,
            final(self).wf(),
            final(self).cur_frame == Some(from.frame),
            final(self).cur_track == from.track,
    {
        if from == to {
            self.clr_at(from);
            self.clr_at(to);
        }
        self.goto(from);
        let mut c = self.child();
        c.dec();
        let mut ci = c.ine_open(to, scratch_track);
        ci.dec_at(to);
        let mut c2 = c.ine_middle(ci, scratch_track);
        c2.clr_at(from);
        c.ine_close(c2, scratch_track);
        self.close_loop_at(from, c);
    }

    /// Prints the hexadecimal digit (0 to 15) in the cell, and clears it.
    pub fn moveprint_hex_digit(&mut self, pos: Pos, scratch_track: ScratchTrack)
        requires
            old(self).can_goto(pos),
            scratch_room(scratch_track),
            pos != scratch_track.first(),
            pos != scratch_track.first().shifted(1),
        ensures
            final(self).st() == g_moveprint_hex_digit(old(self).fs(), old(self).st(), pos, scratch_track),
            final(self).cfg == old(self).cfg,
            final(self).wf(),
            final(self).cur_frame == Some(pos.frame),
            final(self).cur_track == pos.track,
    {
        let ghost fs = self.fs();
        let (two, scratch_track2) = scratch_track.split_2();
        let byte_cpy = two[0];
        let zero = two[1];
        self.copy_byte(pos, byte_cpy, zero);
        self.add_const_to_byte(pos, 48);
        self.add_const_to_byte(zero, 9);
        self.movesub_byte_clamped(zero, byte_cpy, scratch_track2);
        let mut c = self.ine_open(byte_cpy, scratch_track2);
        c.goto(pos);
        c.inc_by(7);
        c.out();
        c.clr();
        let mut c2 = self.ine_middle(c, scratch_track2);
        c2.goto(pos);
        c2.out();
        c2.clr();
        self.ine_close(c2, scratch_track2);
        self.clr_at(byte_cpy);
        self.clr_at(pos);
    }
}


/// The scratch track after `shift_so_frame_is_legal(frame)`.
pub open spec fn legal_spec(st: ScratchTrack, frame: int) -> ScratchTrack {
    match st.dont_go_left_of {
        Some(l) => if frame + st.offset < l { ScratchTrack { offset: (l - frame) as isize, ..st } } else { st },
        None => st,
    }
}

/// One round of dividing: take 1 from the cell (the loop runs once per unit),
/// count down the divisor in scratch cell 0 into cell 1, and when it reaches
/// zero, move the count back and add 1 to `div_result`.
pub open spec fn g_div_round(fs: int, c: CpuState, sa: ScratchTrack, div_result: Pos) -> CpuState {
    let p0 = sa.spec_at(0);
    let p1 = sa.spec_at(1);
    let p2 = sa.spec_at(2);
    let p3 = sa.spec_at(3);
    let c1 = g_goto(fs, g_op(c, Op::Dec), p0);
    let c2 = g_raw_loop(c1, |x: CpuState| g_goto(fs, g_op_at(fs, g_op(x, Op::Dec), p1, Op::Inc), p2));
    let c3 = CpuState { code: c2.code + moves(fs), ..c2 };
    let c4 = g_raw_loop(c3, |x: CpuState| g_goto(fs,
        g_op_at(fs, g_moveadd(fs, CpuState { frame: Some(p1.frame as int), ..x }, p1, p0), div_result, Op::Inc), p3));
    CpuState { frame: Some(p3.frame as int), ..c4 }
}

/// `div_result += a / divisor; rem_result += a % divisor; a = 0`.
pub open spec fn g_movediv(fs: int, s: CpuState, a: Pos, divisor: u8, div_result: Pos, rem_result: Pos, st: ScratchTrack) -> CpuState {
    let sa = legal_spec(st, 0);
    let s1 = g_add_const(fs, s, sa.spec_at(0), (divisor - 1) as u8);
    let s2 = g_loop_while(fs, s1, a, |c: CpuState| g_div_round(fs, c, sa, div_result));
    let s3 = g_moveadd(fs, s2, sa.spec_at(1), rem_result);
    g_clr_at(fs, s3, sa.spec_at(0))
}

impl<'c> Cpu<'c> {
    /// Divides the cell `a` by the constant `divisor` (at least 2), adding the
    /// quotient to `div_result` and the remainder to `rem_result`; clears `a`.
    pub fn movediv_byte_onto_zeros(&mut self, a: Pos, divisor: u8, div_result: Pos, rem_result: Pos,
        scratch_track: ScratchTrack)
        requires
            old(self).can_goto(a),
            divisor >= 2,
            pos_ok(div_result),
            pos_ok(rem_result),
            scratch_ok(scratch_track),
        ensures
            final(self).st() == g_movediv(old(self).fs(), old(self).st(), a, divisor, div_result, rem_result, scratch_track),
            final(self).cfg == old(self).cfg,
            final(self).wf(),
            final(self).cur_frame is Some,
    {
        let ghost fs = self.fs();
        let mut scratch_track = scratch_track;
        scratch_track.shift_so_frame_is_legal(0);
        let p0 = scratch_track.at(0);
        let p1 = scratch_track.at(1);
        let p2 = scratch_track.at(2);
        let p3 = scratch_track.at(3);
        self.add_const_to_byte(p0, divisor - 1);
        self.goto(a);
        let mut c = self.child();
        c.dec();
        c.goto(p0);
        let mut r1 = c.child();
        r1.dec();
        r1.inc_at(p1);
        r1.goto(p2);
        c.close_raw_loop(r1);
        c.shift_frame_untracked(1, true);
        let mut r2 = c.child();
        r2.cur_frame = Some(p1.frame);
        r2.moveadd_byte(p1, p0);
        r2.inc_at(div_result);
        r2.goto(p3);
        c.close_raw_loop(r2);
        c.cur_frame = Some(p3.frame);
        self.close_loop_at(a, c);
        self.moveadd_byte(p1, rem_result);
        self.zero_byte(p0);
    }
}


/// Print the byte in decimal (without leading zeros) and clear it.
pub open spec fn g_moveprint_byte(fs: int, s: CpuState, pos: Pos, st: ScratchTrack) -> CpuState {
    let singles = st.first();
    let temp = st.first().shifted(1);
    let tens = st.first().shifted(2);
    let hundreds = st.first().shifted(3);
    let ds = st.spec_split(4);
    let s1 = g_movediv(fs, s, pos, 10, temp, singles, ds);
    let s2 = g_movediv(fs, s1, temp, 10, hundreds, tens, ds);
    g_moveprint_digit(fs, g_moveprint_digit_if_nonzero(fs, g_moveprint_digit_if_nonzero(fs, s2, hundreds), tens), singles)
}

/// Print byte `i` of the register as two hexadecimal digits, and clear it.
pub open spec fn g_print_hex_byte(fs: int, s: CpuState, register: Register, i: int, st: ScratchTrack) -> CpuState {
    let left = st.first();
    let right = st.first().shifted(1);
    let st2 = st.spec_split(2);
    let s1 = g_movediv(fs, s, reg_at(register, i), 16, left, right, st2);
    g_moveprint_hex_digit(fs, g_moveprint_hex_digit(fs, s1, left, st2), right, st2)
}

pub open spec fn g_print_hex_bytes(fs: int, s: CpuState, register: Register, n: int, st: ScratchTrack) -> CpuState
    decreases n,
{
    if n <= 0 {
        s
    } else {
        g_print_hex_byte(fs, g_print_hex_bytes(fs, s, register, n - 1, st), register, n - 1, st)
    }
}

impl<'c> Cpu<'c> {
    /// Prints the byte in decimal, without leading zeros, and clears it.
    pub fn moveprint_byte(&mut self, pos: Pos, scratch_track: ScratchTrack)
        requires
            old(self).can_goto(pos),
            scratch_room(scratch_track),
        ensures
            final(self).st() == g_moveprint_byte(old(self).fs(), old(self).st(), pos, scratch_track),
            final(self).cfg == old(self).cfg,
            final(self).wf(),
            final(self).cur_frame is Some,
    {
        let (four, div_scratch_track) = scratch_track.split_4();
        let singles = four[0];
        let temp = four[1];
        let tens = four[2];
        let hundreds = four[3];
        self.movediv_byte_onto_zeros(pos, 10, temp, singles, div_scratch_track);
        self.movediv_byte_onto_zeros(temp, 10, hundreds, tens, div_scratch_track);
        self.moveprint_digit_if_nonzero(hundreds);
        self.moveprint_digit_if_nonzero(tens);
        self.moveprint_digit(singles);
    }

    /// Prints `0x` and then the register's bytes in hexadecimal, and clears the register.
    #[verifier::rlimit(80)]
    #[verifier::spinoff_prover]
    pub fn moveprint_register_hex(&mut self, register: Register, scratch_track: ScratchTrack)
        requires
            old(self).wf(),
            old(self).cur_frame is Some,
            reg_ok(register),
            scratch_room(scratch_track),
            scratch_track.left_limit() <= 0xE_0000,
        ensures
            final(self).st() == g_print_hex_bytes(old(self).fs(),
                g_print_text(old(self).fs(), old(self).st(), "0x"@, scratch_track.first()), register, register.size as int, scratch_track),
            final(self).cfg == old(self).cfg,
            final(self).wf(),
    {
        proof { reveal_strlit("0x"); }
        self.print_text("0x", scratch_track);
        let ghost s1 = self.st();
        let ghost fs = self.fs();
        let mut i: isize = 0;
        while i < register.size
            invariant
                0 <= i <= register.size,
                self.wf(),
                self.cur_frame is Some,
                self.cfg == old(self).cfg,
                fs == self.fs(),
                reg_ok(register),
                scratch_room(scratch_track),
                scratch_track.left_limit() <= 0xE_0000,
                self.st() == g_print_hex_bytes(fs, s1, register, i as int, scratch_track),
            decreases register.size - i,
        {
            self.print_hex_byte(register, i, scratch_track);
            i = i + 1;
        }
    }

    fn print_hex_byte(&mut self, register: Register, i: isize, scratch_track: ScratchTrack)
        requires
            old(self).wf(),
            old(self).cur_frame is Some,
            reg_ok(register),
            0 <= i < register.size,
            scratch_room(scratch_track),
            scratch_track.left_limit() <= 0xE_0000,
        ensures
            final(self).st() == g_print_hex_byte(old(self).fs(), old(self).st(), register, i as int, scratch_track),
            final(self).cfg == old(self).cfg,
            final(self).wf(),
            final(self).cur_frame is Some,
    {
        let (two, scratch_track2) = scratch_track.split_2();
        let left = two[0];
        let right = two[1];
        self.movediv_byte_onto_zeros(register.at(i), 16, left, right, scratch_track2);
        self.moveprint_hex_digit(left, scratch_track2);
        self.moveprint_hex_digit(right, scratch_track2);
    }
}


/// Clear the first `n` cells of the register, one by one.
pub open spec fn g_clr_each(fs: int, s: CpuState, r: Register, n: int) -> CpuState
    decreases n,
{
    if n <= 0 {
        s
    } else {
        g_clr_at(fs, g_clr_each(fs, s, r, n - 1), reg_at(r, n - 1))
    }
}

/// One round of clearing a long register: count down, walk right to the moving
/// marker, clear the register cell there, move the marker one frame on, and walk
/// back to the fixed marker.
pub open spec fn g_clr_round(fs: int, x: CpuState, r: Register, st: ScratchTrack) -> CpuState {
    let counter = st.first();
    let s1p = st.first().shifted(1);
    let s2p = st.first().shifted(2);
    let x1 = g_goto(fs, g_op_at(fs, x, counter, Op::Dec), s2p);
    let x2 = g_sentinel(fs, x1, s2p, Op::Dec, Op::Inc, 1);
    let x3 = g_clr_at(fs, x2, reg_at(r, 0));
    let x4 = g_op_at(fs, x3, s2p.shifted(1), Op::Inc);
    g_op(g_sentinel(fs, g_goto(fs, x4, s1p), s1p, Op::Dec, Op::Inc, -1), Op::Inc)
}

/// Clear a register longer than 8 cells with a loop that visits its cells.
pub open spec fn g_clr_long(fs: int, s: CpuState, r: Register, st: ScratchTrack) -> CpuState {
    let counter = st.first();
    let s1p = st.first().shifted(1);
    let s2p = st.first().shifted(2);
    let a = g_op_at(fs, g_op_at(fs, s, s1p, Op::Inc), s2p, Op::Inc);
    let b = g_add_const(fs, a, counter, (r.size % 256) as u8);
    let c = g_loop_while(fs, b, counter, |x: CpuState| g_clr_round(fs, x, r, st));
    let d = g_sentinel(fs, g_goto(fs, c, s2p), s2p.shifted(r.size as int), Op::Dec, Op::Inc, 1);
    g_sentinel(fs, g_goto(fs, d, s2p.shifted(r.size - 1)), s1p, Op::Dec, Op::Inc, -1)
}

pub open spec fn g_clr_register(fs: int, s: CpuState, r: Register, st: ScratchTrack) -> CpuState {
    if r.size <= 8 { g_clr_each(fs, s, r, r.size as int) } else { g_clr_long(fs, s, r, st) }
}

/// `copy_register`: `from` is added onto `to` cell by cell (clearing `to`
/// first if asked), walking in the direction that keeps an overlap intact.
pub open spec fn g_copy_register(fs: int, s: CpuState, from: Register, to: Register, st: ScratchTrack, clear: bool) -> CpuState {
    let s1 = if clear { g_clr_register(fs, s, to, st) } else { s };
    if reg_at(from, 0) == reg_at(to, 0) {
        s1
    } else if from.offset < to.offset {
        g_copy_slice_up(fs, s1, reg_at(from, 0), reg_at(to, 0), from.size as int, st)
    } else {
        g_copy_slice_down(fs, s1, reg_at(from, 0), reg_at(to, 0), from.size as int, st)
    }
}

impl<'c> Cpu<'c> {
    fn clr_round(&mut self, register: Register, st: ScratchTrack)
        requires
            old(self).wf(),
            old(self).cur_frame is Some,
            reg_ok(register),
            scratch_room(st),
        ensures
            final(self).st() == g_clr_round(old(self).fs(), old(self).st(), register, st),
            final(self).cfg == old(self).cfg,
            final(self).wf(),
            final(self).cur_frame == Some(st.first().shifted(1).frame),
            final(self).cur_track == st.first().track,
    {
        let counter = st.first_pos();
        let sentinel1 = Pos { frame: counter.frame + 1, track: counter.track };
        let sentinel2 = Pos { frame: counter.frame + 2, track: counter.track };
        self.dec_at(counter);
        self.goto(sentinel2);
        self.go_clear_sentinel_right(sentinel2);
        self.clr_at(register.at(0));
        self.inc_at(sentinel2.get_shifted(1));
        self.goto(sentinel1);
        self.goto_sentinel_left(sentinel1);
    }

    /// Clears a register: cell by cell if it has at most 8 cells, else with a
    /// loop over its cells that uses three scratch cells as counter and markers.
    pub fn clr_register(&mut self, register: Register, scratch_track: ScratchTrack)
        requires
            old(self).wf(),
            old(self).cur_frame is Some,
            reg_ok(register),
            scratch_room(scratch_track),
        ensures
            final(self).st() == g_clr_register(old(self).fs(), old(self).st(), register, scratch_track),
            final(self).cfg == old(self).cfg,
            final(self).wf(),
            final(self).cur_frame is Some,
    {
        let ghost s0 = self.st();
        let ghost fs = self.fs();
        if register.size <= 8 {
            let mut i: isize = 0;
            while i < register.size
                invariant
                    0 <= i <= register.size,
                    self.wf(),
                    self.cur_frame is Some,
                    self.cfg == old(self).cfg,
                    fs == self.fs(),
                    reg_ok(register),
                    self.st() == g_clr_each(fs, s0, register, i as int),
                decreases register.size - i,
            {
                self.clr_at(register.at(i));
                i = i + 1;
            }
        } else {
            let counter = scratch_track.first_pos();
            let sentinel1 = Pos { frame: counter.frame + 1, track: counter.track };
            let sentinel2 = Pos { frame: counter.frame + 2, track: counter.track };
            self.inc_at(sentinel1);
            self.inc_at(sentinel2);
            self.add_const_to_byte(counter, (register.size % 256) as u8);
            self.goto(counter);
            let mut c = self.child();
            c.clr_round(register, scratch_track);
            self.close_loop_at(counter, c);
            proof { lemma_goto_here(self.fs(), self.st(), counter); }
            self.goto(sentinel2);
            self.go_clear_sentinel_right(sentinel2.get_shifted(register.size));
            self.goto(sentinel2.get_shifted(register.size - 1));
            self.go_clear_sentinel_left(sentinel1);
        }
    }

    /// Clears a register of bits.
    pub fn clr_binregister(&mut self, register: BinRegister, scratch_track: ScratchTrack)
        requires
            old(self).wf(),
            old(self).cur_frame is Some,
            reg_ok(register.as_register_spec()),
            scratch_room(scratch_track),
        ensures
            final(self).st() == g_clr_register(old(self).fs(), old(self).st(), register.as_register_spec(), scratch_track),
            final(self).cfg == old(self).cfg,
            final(self).wf(),
            final(self).cur_frame is Some,
    {
        self.clr_register(register.as_register(), scratch_track);
    }

    /// Adds `from` onto `to` (cell by cell, without carries), clearing `to` first if asked.
    pub fn copy_register(&mut self, from: Register, to: Register, scratch_track: ScratchTrack, clear_result_first: bool)
        requires
            old(self).wf(),
            old(self).cur_frame is Some,
            from.size == to.size,
            reg_ok(from),
            reg_ok(to),
            near_slice(reg_at(from, 0), from.size as int),
            near_slice(reg_at(to, 0), to.size as int),
            scratch_room(scratch_track),
        ensures
            final(self).st() == g_copy_register(old(self).fs(), old(self).st(), from, to, scratch_track, clear_result_first),
            final(self).cfg == old(self).cfg,
            final(self).wf(),
            final(self).cur_frame is Some,
    {
        if clear_result_first {
            self.clr_register(to, scratch_track);
        }
        self.copy_slice(from.at(0), from.size, to.at(0), scratch_track);
    }
}

impl BinRegister {
    pub open spec fn as_register_spec(self) -> Register {
        Register { track: self.track, size: self.size, offset: self.offset }
    }
}


/// `add_register_to_register`: `a` is copied into a scratch register, which
/// is then moved into `b` with carries.
pub open spec fn g_add_register(fs: int, s: CpuState, a: Register, b: Register, st: ScratchTrack) -> CpuState {
    let a_cpy = split_reg_spec(st, a.size as int);
    let st2 = st.spec_split(a.size as int);
    let s1 = if reg_at(a, 0) == reg_at(a_cpy, 0) {
        s
    } else if a.offset < a_cpy.offset {
        g_copy_slice_up(fs, s, reg_at(a, 0), reg_at(a_cpy, 0), a.size as int, st2)
    } else {
        g_copy_slice_down(fs, s, reg_at(a, 0), reg_at(a_cpy, 0), a.size as int, st2)
    };
    g_madd_regs(fs, s1, a_cpy, b, split_reg_spec(st2, a.size as int), st2.spec_split(a.size as int), a.size as int)
}

impl<'c> Cpu<'c> {
    /// Adds register `a` into register `b` (big-endian, with carries), keeping `a`:
    /// `a` is first copied into a scratch register, which is then moved into `b`.
    pub fn add_register_to_register(&mut self, a: Register, b: Register, scratch_track: ScratchTrack)
        requires
            old(self).wf(),
            old(self).cur_frame is Some,
            a.size == b.size,
            reg_ok(a),
            reg_ok(b),
            near_slice(reg_at(a, 0), a.size as int),
            scratch_room(scratch_track),
            scratch_track.left_limit() + 2 * a.size <= 0xE_0000,
            near_slice(reg_at(split_reg_spec(scratch_track, a.size as int), 0), a.size as int),
            madd_regs_ok(split_reg_spec(scratch_track, a.size as int), b,
                split_reg_spec(scratch_track.spec_split(a.size as int), a.size as int)),
        ensures
            final(self).st() == g_add_register(old(self).fs(), old(self).st(), a, b, scratch_track),
            final(self).cfg == old(self).cfg,
            final(self).wf(),
            final(self).cur_frame is Some,
    {
        let (a_cpy, scratch_track) = scratch_track.split_register(a.size);
        self.copy_register(a, a_cpy, scratch_track, false);
        self.moveadd_registers(a_cpy, b, scratch_track);
    }
}


/// One step of carrying a bit increment (or decrement, with `up` false) through a
/// register of bits, at the moving carry cell `ca`; the cursor frame is shifted
/// one frame left each time, so the last bit is always at the same frame.
pub open spec fn g_bin_step(fs: int, x: CpuState, last: Pos, nc: Pos, ca: Pos, st: ScratchTrack, up: bool) -> CpuState {
    let th = if up {
        |c: CpuState| g_op_at(fs, g_op_at(fs, c, last, Op::Dec), nc, Op::Inc)
    } else {
        |c: CpuState| g_op_at(fs, c, last, Op::Dec)
    };
    let el = if up {
        |c: CpuState| g_op_at(fs, c, last, Op::Inc)
    } else {
        |c: CpuState| g_op_at(fs, g_op_at(fs, c, last, Op::Inc), nc, Op::Inc)
    };
    let y = g_goto(fs, g_if_nonzero_else(fs, g_op(x, Op::Dec), last, st, th, el), nc);
    CpuState { frame: Some(ca.frame as int), ..y }
}

/// Add (or, with `up` false, subtract) 1 to a big-endian register of bits.
pub open spec fn g_step_binregister(fs: int, s: CpuState, br: BinRegister, st0: ScratchTrack, up: bool) -> CpuState {
    let r = br.as_register_spec();
    let bb = st0.first();
    let s1 = st0.first().shifted(1);
    let st_a = st0.spec_split(2).spec_split(br.size + 1);
    let nc = st_a.first();
    let ca = st_a.first().shifted(1);
    let st_b = st_a.spec_split(2);
    let last = reg_at(r, br.size - 1);
    let m1 = reg_at(r, -1);
    let a = g_op_at(fs, g_op_at(fs, g_moveadd(fs, s, m1, bb), s1, Op::Inc), ca, Op::Inc);
    let b = g_loop_while(fs, a, ca, |x: CpuState| g_bin_step(fs, x, last, nc, ca, st_b, up));
    let c = g_sentinel(fs, b, s1, Op::Dec, Op::Inc, -1);
    g_moveadd(fs, c, bb, m1)
}

/// A register of bits that the generator may work on, with room before it.
pub open spec fn breg_ok(br: BinRegister) -> bool {
    &&& 1 <= br.size <= 0x1000
    &&& -0x3F_0000 <= br.offset
    &&& br.offset + br.size <= 0x3F_0000
    &&& mid(br.track.track_num as int)
}

impl<'c> Cpu<'c> {
    fn bin_step(&mut self, br: BinRegister, new_carry: Pos, carry: Pos, st: ScratchTrack, up: bool)
        requires
            old(self).wf(),
            old(self).cur_frame is Some,
            breg_ok(br),
            pos_ok(new_carry),
            pos_ok(carry),
            scratch_ok(st),
        ensures
            final(self).st() == g_bin_step(old(self).fs(), old(self).st(), reg_at(br.as_register_spec(), br.size - 1), new_carry, carry, st, up),
            final(self).cfg == old(self).cfg,
            final(self).wf(),
            final(self).cur_frame == Some(carry.frame),
            final(self).cur_track == new_carry.track,
    {
        let last = br.at(br.size - 1);
        self.dec();
        let mut c = self.ine_open(last, st);
        if up {
            c.dec_at(last);
            c.inc_at(new_carry);
        } else {
            c.dec_at(last);
        }
        let mut c2 = self.ine_middle(c, st);
        if up {
            c2.inc_at(last);
        } else {
            c2.inc_at(last);
            c2.inc_at(new_carry);
        }
        self.ine_close(c2, st);
        self.goto(new_carry);
        self.cur_frame = Some(carry.frame);
    }

    fn step_binregister(&mut self, bin_register: BinRegister, scratch_track: ScratchTrack, up: bool)
        requires
            old(self).wf(),
            old(self).cur_frame is Some,
            breg_ok(bin_register),
            scratch_room(scratch_track),
            scratch_track.left_limit() + bin_register.size <= 0xE_0000,
        ensures
            final(self).st() == g_step_binregister(old(self).fs(), old(self).st(), bin_register, scratch_track, up),
            final(self).cfg == old(self).cfg,
            final(self).wf(),
            final(self).cur_frame is Some,
    {
        let (two, scratch_track) = scratch_track.split_2();
        let byte_backup = two[0];
        let sentinel1 = two[1];
        let scratch_track = scratch_track.get_split_scratch(bin_register.size + 1);
        let (two, scratch_track) = scratch_track.split_2();
        let new_carry = two[0];
        let carry = two[1];
        self.moveadd_byte(bin_register.at_unchecked(-1), byte_backup);
        self.inc_at(sentinel1);
        self.inc_at(carry);
        self.goto(carry);
        let mut c = self.child();
        c.bin_step(bin_register, new_carry, carry, scratch_track, up);
        self.close_loop_at(carry, c);
        proof { lemma_goto_here(self.fs(), self.st(), carry); }
        self.go_clear_sentinel_left(sentinel1);
        self.moveadd_byte(byte_backup, bin_register.at_unchecked(-1));
    }

    /// Adds 1 to a big-endian register of bits (the cell before it is saved and restored).
    pub fn inc_binregister(&mut self, bin_register: BinRegister, scratch_track: ScratchTrack)
        requires
            old(self).wf(),
            old(self).cur_frame is Some,
            breg_ok(bin_register),
            scratch_room(scratch_track),
            scratch_track.left_limit() + bin_register.size <= 0xE_0000,
        ensures
            final(self).st() == g_step_binregister(old(self).fs(), old(self).st(), bin_register, scratch_track, true),
            final(self).cfg == old(self).cfg,
            final(self).wf(),
            final(self).cur_frame is Some,
    {
        self.step_binregister(bin_register, scratch_track, true);
    }

    /// Subtracts 1 from a big-endian register of bits (the cell before it is saved and restored).
    pub fn dec_binregister(&mut self, bin_register: BinRegister, scratch_track: ScratchTrack)
        requires
            old(self).wf(),
            old(self).cur_frame is Some,
            breg_ok(bin_register),
            scratch_room(scratch_track),
            scratch_track.left_limit() + bin_register.size <= 0xE_0000,
        ensures
            final(self).st() == g_step_binregister(old(self).fs(), old(self).st(), bin_register, scratch_track, false),
            final(self).cfg == old(self).cfg,
            final(self).wf(),
            final(self).cur_frame is Some,
    {
        self.step_binregister(bin_register, scratch_track, false);
    }
}


/// The 8-bit register of bits that starts at `p`.
pub open spec fn bits_at(p: Pos) -> BinRegister {
    BinRegister { track: Track { track_num: p.track }, size: 8, offset: p.frame }
}

/// Count the byte down to zero, adding 1 to the bits at `result` each time.
pub open spec fn g_unpack_byte(fs: int, s: CpuState, byte_pos: Pos, result: Pos, st: ScratchTrack) -> CpuState {
    g_loop_while(fs, s, byte_pos, |c: CpuState| g_step_binregister(fs, g_op_at(fs, c, byte_pos, Op::Dec), bits_at(result), st, true))
}

pub open spec fn g_unpack_bytes(fs: int, s: CpuState, r: Register, result: BinRegister, st: ScratchTrack, n: int) -> CpuState
    decreases n,
{
    if n <= 0 {
        s
    } else {
        let s1 = g_unpack_bytes(fs, s, r, result, st, n - 1);
        let sp = st.first();
        let st2 = st.spec_split(1);
        let s2 = g_copy_auto(fs, s1, reg_at(r, n - 1), sp, st2);
        g_unpack_byte(fs, s2, sp, reg_at(result.as_register_spec(), (n - 1) * 8), st2)
    }
}

/// Collect the 8 bits into the first scratch cell, doubling it before each bit.
pub open spec fn g_pack_bits(fs: int, s: CpuState, br: BinRegister, x: Pos, s1: Pos, s2: Pos, n: int) -> CpuState
    decreases n,
{
    if n <= 0 {
        s
    } else {
        let a = g_pack_bits(fs, s, br, x, s1, s2, n - 1);
        let b = if n - 1 != 0 { g_moveadd(fs, g_copy_byte(fs, a, x, s1, s2), s1, x) } else { a };
        g_copy_byte(fs, b, reg_at(br.as_register_spec(), n - 1), x, s1)
    }
}

pub open spec fn g_pack8(fs: int, s: CpuState, br: BinRegister, result: Pos, st: ScratchTrack, clear: bool) -> CpuState {
    let s0 = if clear { g_clr_at(fs, s, result) } else { s };
    let x = st.first();
    let a = g_pack_bits(fs, s0, br, x, x.shifted(1), x.shifted(2), 8);
    g_moveadd(fs, a, x, result)
}

pub open spec fn g_pack_bytes(fs: int, s: CpuState, br: BinRegister, result: Register, st: ScratchTrack, clear: bool, n: int) -> CpuState
    decreases n,
{
    if n <= 0 {
        s
    } else {
        let sub = BinRegister { offset: (br.offset + (n - 1) * 8) as isize, size: 8, track: br.track };
        g_pack8(fs, g_pack_bytes(fs, s, br, result, st, clear, n - 1), sub, reg_at(result, n - 1), st, clear)
    }
}

/// None of the bits is one of the three scratch cells that packing uses.
pub open spec fn pack_apart(br: BinRegister, st: ScratchTrack) -> bool {
    forall|i: int| 0 <= i < br.size ==> {
        &&& #[trigger] reg_at(br.as_register_spec(), i) != st.first()
        &&& reg_at(br.as_register_spec(), i) != st.first().shifted(1)
    }
}

impl<'c> Cpu<'c> {
    /// Moves the byte into the 8 bits at `result_pos`, which must be zero, by
    /// counting it down; returns that register of bits.
    pub fn move_unpack_byte_onto_zeros(&mut self, byte_pos: Pos, result_pos: Pos, scratch_track: ScratchTrack) -> (r: BinRegister)
        requires
            old(self).can_goto(byte_pos),
            breg_ok(bits_at(result_pos)),
            scratch_room(scratch_track),
            scratch_track.left_limit() + 8 <= 0xE_0000,
        ensures
            r == bits_at(result_pos),
            final(self).st() == g_unpack_byte(old(self).fs(), old(self).st(), byte_pos, result_pos, scratch_track),
            final(self).cfg == old(self).cfg,
            final(self).wf(),
            final(self).cur_frame is Some,
    {
        let result_register = BinRegister { track: Track { track_num: result_pos.track }, size: 8, offset: result_pos.frame };
        self.goto(byte_pos);
        let mut c = self.child();
        c.dec_at(byte_pos);
        c.inc_binregister(result_register, scratch_track);
        self.close_loop_at(byte_pos, c);
        result_register
    }

    /// Unpacks the bytes of the register into the register of bits (8 per byte,
    /// most significant first), clearing that first if asked; returns it.
    pub fn unpack_register(&mut self, register: Register, result_register: BinRegister, scratch_track: ScratchTrack,
        clear_result_first: bool) -> (r: BinRegister)
        requires
            old(self).wf(),
            old(self).cur_frame is Some,
            register.size * 8 == result_register.size,
            reg_ok(register),
            near_slice(reg_at(register, 0), register.size as int),
            breg_ok(result_register),
            scratch_room(scratch_track),
            scratch_track.left_limit() + 16 <= 0xE_0000,
            near(scratch_track.first()),
        ensures
            r == result_register,
            final(self).st() == g_unpack_bytes(old(self).fs(),
                if clear_result_first { g_clr_register(old(self).fs(), old(self).st(), result_register.as_register_spec(), scratch_track) } else { old(self).st() },
                register, result_register, scratch_track, register.size as int),
            final(self).cfg == old(self).cfg,
            final(self).wf(),
            final(self).cur_frame is Some,
    {
        if clear_result_first {
            self.clr_binregister(result_register, scratch_track);
        }
        let ghost s1 = self.st();
        let ghost fs = self.fs();
        let (scratch_pos, scratch_track2) = scratch_track.split_1();
        let mut i: isize = 0;
        while i < register.size
            invariant
                0 <= i <= register.size,
                self.wf(),
                self.cur_frame is Some,
                self.cfg == old(self).cfg,
                fs == self.fs(),
                register.size * 8 == result_register.size,
                reg_ok(register),
                near_slice(reg_at(register, 0), register.size as int),
                breg_ok(result_register),
                scratch_room(scratch_track),
                scratch_track.left_limit() + 16 <= 0xE_0000,
                near(scratch_track.first()),
                scratch_pos == scratch_track.first(),
                scratch_track2 == scratch_track.spec_split(1),
                self.st() == g_unpack_bytes(fs, s1, register, result_register, scratch_track, i as int),
            decreases register.size - i,
        {
            self.copy_byte_autoscratch(register.at(i), scratch_pos, scratch_track2);
            self.move_unpack_byte_onto_zeros(scratch_pos, result_register.at(i * 8), scratch_track2);
            i = i + 1;
        }
        result_register
    }

    /// Packs the 8 bits (most significant first) into one byte added onto
    /// `result_pos`, clearing that first if asked.
    pub fn pack_binregister8_onto_byte(&mut self, binregister: BinRegister, result_pos: Pos, scratch_track: ScratchTrack,
        clear_result_first: bool)
        requires
            old(self).wf(),
            old(self).cur_frame is Some,
            binregister.size == 8,
            breg_ok(binregister),
            pos_ok(result_pos),
            scratch_room(scratch_track),
            pack_apart(binregister, scratch_track),
        ensures
            final(self).st() == g_pack8(old(self).fs(), old(self).st(), binregister, result_pos, scratch_track, clear_result_first),
            final(self).cfg == old(self).cfg,
            final(self).wf(),
            final(self).cur_frame is Some,
    {
        if clear_result_first {
            self.clr_at(result_pos);
        }
        let ghost s1 = self.st();
        let ghost fs = self.fs();
        let (three, _) = scratch_track.split_3();
        let x = three[0];
        let scratch1 = three[1];
        let scratch2 = three[2];
        let mut i: isize = 0;
        while i < binregister.size
            invariant
                0 <= i <= 8,
                binregister.size == 8,
                self.wf(),
                self.cur_frame is Some,
                self.cfg == old(self).cfg,
                fs == self.fs(),
                breg_ok(binregister),
                scratch_room(scratch_track),
                pack_apart(binregister, scratch_track),
                x == scratch_track.first(),
                scratch1 == scratch_track.first().shifted(1),
                scratch2 == scratch_track.first().shifted(2),
                self.st() == g_pack_bits(fs, s1, binregister, x, scratch1, scratch2, i as int),
            decreases 8 - i,
        {
            if i != 0 {
                self.copy_byte(x, scratch1, scratch2);
                self.moveadd_byte(scratch1, x);
            }
            assert(reg_at(binregister.as_register_spec(), i as int) != scratch_track.first());
            self.copy_byte(binregister.at(i), x, scratch1);
            i = i + 1;
        }
        self.moveadd_byte(x, result_pos);
    }

    /// Packs the register of bits into the register of bytes, 8 bits per byte.
    #[verifier::spinoff_prover]
    #[verifier::rlimit(40)]
    pub fn pack_binregister(&mut self, binregister: BinRegister, result_register: Register, scratch_track: ScratchTrack,
        clear_result_first: bool)
        requires
            old(self).wf(),
            old(self).cur_frame is Some,
            binregister.size == result_register.size * 8,
            breg_ok(binregister),
            reg_ok(result_register),
            scratch_room(scratch_track),
            pack_apart(binregister, scratch_track),
        ensures
            final(self).st() == g_pack_bytes(old(self).fs(), old(self).st(), binregister, result_register, scratch_track,
                clear_result_first, result_register.size as int),
            final(self).cfg == old(self).cfg,
            final(self).wf(),
            final(self).cur_frame is Some,
    {
        let ghost s1 = self.st();
        let ghost fs = self.fs();
        let mut i: isize = 0;
        while i < result_register.size
            invariant
                0 <= i <= result_register.size,
                binregister.size == result_register.size * 8,
                self.wf(),
                self.cur_frame is Some,
                self.cfg == old(self).cfg,
                fs == self.fs(),
                breg_ok(binregister),
                reg_ok(result_register),
                scratch_room(scratch_track),
                pack_apart(binregister, scratch_track),
                self.st() == g_pack_bytes(fs, s1, binregister, result_register, scratch_track, clear_result_first, i as int),
            decreases result_register.size - i,
        {
            let sub = binregister.subview(i * 8, 8);
            assert(pack_apart(sub, scratch_track)) by {
                assert forall|j: int| 0 <= j < sub.size implies {
                    &&& #[trigger] reg_at(sub.as_register_spec(), j) != scratch_track.first()
                    &&& reg_at(sub.as_register_spec(), j) != scratch_track.first().shifted(1)
                } by {
                    assert(reg_at(sub.as_register_spec(), j) == reg_at(binregister.as_register_spec(), i * 8 + j));
                }
            }
            self.pack_binregister8_onto_byte(sub, result_register.at(i), scratch_track, clear_result_first);
            i = i + 1;
        }
    }
}

}
