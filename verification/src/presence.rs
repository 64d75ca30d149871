//! Awareness of other peers: versioned presence frames, the peers that are
//! around, and the cursors that stand for them. Generic over the space in which
//! the cursors move.
use vstd::prelude::*;
use vstd::utf8::encode_utf8;

use crate::agent::scene::Entity;
use crate::agent::scene::PeerId;
use crate::geometry::is_nan;
use crate::geometry::same_numbers;
use crate::geometry::Pos2;
use crate::geometry::Pos3;
use crate::geometry::Rgb;
use crate::table::Table;
use crate::text::decimal;
use crate::text::push_decimal;
use crate::text::same_text;
use crate::wire::frame_bytes;
use crate::wire::frame_read;
use crate::wire::frame_round_trip;
use crate::wire::read_frame5;
use crate::wire::read_frame6;
use crate::wire::read_version;
use crate::wire::varint;
use crate::wire::version_read;
use crate::wire::version_round_trip;
use crate::wire::write_frame5;
use crate::wire::write_frame6;

verus! {

/// The version of the frames written and understood here. Frames of any other
/// version are dropped.
pub const PRESENCE_VERSION: u16 = 1;

/// A point that a cursor can stand at, and how a frame holds it.
pub trait Point: Copy {
    /// The point's coordinates, in the order in which a frame holds them.
    spec fn coords(self) -> Seq<u32>;

    /// How many coordinates a point has.
    spec fn dimension() -> nat;

    /// The point with the given coordinates.
    spec fn from_coords(coords: Seq<u32>) -> Self;

    proof fn lemma_coords(self)
        ensures
            self.coords().len() == Self::dimension(),
            forall|more: Seq<u32>|
                Self::from_coords(#[trigger] (self.coords() + more)) == self,
    ;

    /// Whether both points have the same coordinates, as numbers.
    fn same_point(&self, other: &Self) -> (r: bool)
        ensures
            r == same_numbers(self.coords(), other.coords()),
    ;

    /// The frame that holds this point, a colour and a name.
    fn write_frame(&self, version: u16, color: Rgb, name: &str) -> (r: Result<
        Vec<u8>,
        postcard::Error,
    >)
        ensures
            r is Ok,
            r->Ok_0@ == frame_bytes(version, self.coords() + color.words(), name@),
    ;

    /// The frame at the head of `bytes`.
    fn read_frame(bytes: &[u8]) -> (r: Result<(u16, Self, Rgb, String), postcard::Error>)
        ensures
            r is Ok <==> frame_read(bytes@, Self::dimension() + 3) is Some,
            r matches Ok(f) ==> frame_read(bytes@, Self::dimension() + 3) == Some(
                (f.0, f.1.coords() + f.2.words(), f.3@),
            ),
    ;
}

impl Point for Pos2 {
    open spec fn coords(self) -> Seq<u32> {
        self.words()
    }

    open spec fn dimension() -> nat {
        2
    }

    open spec fn from_coords(coords: Seq<u32>) -> Self {
        Pos2 { x: coords[0], y: coords[1] }
    }

    proof fn lemma_coords(self) {
    }

    fn same_point(&self, other: &Self) -> (r: bool) {
        self.same(other)
    }

    fn write_frame(&self, version: u16, color: Rgb, name: &str) -> (r: Result<
        Vec<u8>,
        postcard::Error,
    >) {
        let words: [u32; 5] = [self.x, self.y, color.r, color.g, color.b];
        assert(words@ =~= self.coords() + color.words());
        write_frame5(version, words, name)
    }

    fn read_frame(bytes: &[u8]) -> (r: Result<(u16, Self, Rgb, String), postcard::Error>) {
        match read_frame5(bytes) {
            Ok((version, w, name)) => {
                let at = Pos2 { x: w[0], y: w[1] };
                let color = Rgb { r: w[2], g: w[3], b: w[4] };
                assert(w@ =~= at.coords() + color.words());
                Ok((version, at, color, name))
            },
            Err(e) => Err(e),
        }
    }
}

impl Point for Pos3 {
    open spec fn coords(self) -> Seq<u32> {
        self.words()
    }

    open spec fn dimension() -> nat {
        3
    }

    open spec fn from_coords(coords: Seq<u32>) -> Self {
        Pos3 { x: coords[0], y: coords[1], z: coords[2] }
    }

    proof fn lemma_coords(self) {
    }

    fn same_point(&self, other: &Self) -> (r: bool) {
        self.same(other)
    }

    fn write_frame(&self, version: u16, color: Rgb, name: &str) -> (r: Result<
        Vec<u8>,
        postcard::Error,
    >) {
        let words: [u32; 6] = [self.x, self.y, self.z, color.r, color.g, color.b];
        assert(words@ =~= self.coords() + color.words());
        write_frame6(version, words, name)
    }

    fn read_frame(bytes: &[u8]) -> (r: Result<(u16, Self, Rgb, String), postcard::Error>) {
        match read_frame6(bytes) {
            Ok((version, w, name)) => {
                let at = Pos3 { x: w[0], y: w[1], z: w[2] };
                let color = Rgb { r: w[3], g: w[4], b: w[5] };
                assert(w@ =~= at.coords() + color.words());
                Ok((version, at, color, name))
            },
            Err(e) => Err(e),
        }
    }
}

/// What a peer tells the others of itself.
#[derive(Debug)]
pub struct PresenceState<C> {
    pub cursor: C,
    pub color: Rgb,
    /// Empty where the peer gave none.
    pub name: String,
}

#[verifier::ext_equal]
pub struct PresenceView<C> {
    pub cursor: C,
    pub color: Rgb,
    pub name: Seq<char>,
}

impl<C> View for PresenceState<C> {
    type V = PresenceView<C>;

    open spec fn view(&self) -> PresenceView<C> {
        PresenceView { cursor: self.cursor, color: self.color, name: self.name@ }
    }
}

impl<C: Copy> Clone for PresenceState<C> {
    fn clone(&self) -> (r: Self)
        ensures
            r@ == self@,
    {
        PresenceState { cursor: self.cursor, color: self.color, name: self.name.clone() }
    }
}

impl Default for PresenceState<Pos2> {
    fn default() -> (r: Self)
        ensures
            r.cursor == (Pos2 { x: 0, y: 0 }),
            r.color == (Rgb { r: 0, g: 0, b: 0 }),
            r.name@.len() == 0,
    {
        PresenceState { cursor: Pos2::default(), color: Rgb::default(), name: String::new() }
    }
}

impl Default for PresenceState<Pos3> {
    fn default() -> (r: Self)
        ensures
            r.cursor == (Pos3 { x: 0, y: 0, z: 0 }),
            r.color == (Rgb { r: 0, g: 0, b: 0 }),
            r.name@.len() == 0,
    {
        PresenceState { cursor: Pos3::default(), color: Rgb::default(), name: String::new() }
    }
}

/// Bytes that hold no presence frame.
#[derive(Clone, Copy, Debug, PartialEq, Eq, Structural)]
pub struct PresenceError;

/// The frame for `state`, at the version spoken here.
pub open spec fn encoded<C: Point>(state: PresenceView<C>) -> Seq<u8> {
    frame_bytes(PRESENCE_VERSION, state.cursor.coords() + state.color.words(), state.name)
}

/// What the words of a frame say of a peer.
pub open spec fn state_of<C: Point>(words: Seq<u32>, name: Seq<char>) -> PresenceView<C> {
    let d = C::dimension() as int;
    PresenceView {
        cursor: C::from_coords(words),
        color: Rgb { r: words[d], g: words[d + 1], b: words[d + 2] },
        name,
    }
}

/// What `bytes` say of a peer: nothing where they start with another version,
/// whatever follows it, and an error where no frame stands there.
pub open spec fn decoded<C: Point>(bytes: Seq<u8>) -> Result<
    Option<PresenceView<C>>,
    PresenceError,
> {
    match version_read(bytes) {
        None => Err(PresenceError),
        Some(version) => if version != PRESENCE_VERSION {
            Ok(None)
        } else {
            match frame_read(bytes, C::dimension() + 3) {
                None => Err(PresenceError),
                Some((_, words, name)) => Ok(Some(state_of(words, name))),
            }
        },
    }
}

/// A decoding result, by its views.
pub open spec fn decoded_view<C>(r: Result<Option<PresenceState<C>>, PresenceError>) -> Result<
    Option<PresenceView<C>>,
    PresenceError,
> {
    match r {
        Ok(Some(state)) => Ok(Some(state@)),
        Ok(None) => Ok(None),
        Err(e) => Err(e),
    }
}

/// Writes `state` as a frame.
pub fn encode_presence<C: Point>(state: &PresenceState<C>) -> (r: Result<Vec<u8>, PresenceError>)
    ensures
        r is Ok,
        r->Ok_0@ == encoded(state@),
{
    match state.cursor.write_frame(PRESENCE_VERSION, state.color, state.name.as_str()) {
        Ok(bytes) => Ok(bytes),
        Err(_) => Err(PresenceError),
    }
}

/// Reads a frame, its version first. `Ok(None)` where that is another one; an
/// error only where the bytes hold no frame.
pub fn decode_presence<C: Point>(bytes: &[u8]) -> (r: Result<
    Option<PresenceState<C>>,
    PresenceError,
>)
    ensures
        decoded_view(r) == decoded::<C>(bytes@),
{
    match read_version(bytes) {
        Ok(version) => {
            if version != PRESENCE_VERSION {
                return Ok(None);
            }
        },
        Err(_) => {
            return Err(PresenceError);
        },
    }
    match C::read_frame(bytes) {
        Ok((_, cursor, color, name)) => {
            proof {
                lemma_state_of(cursor, color, name@);
            }
            Ok(Some(PresenceState { cursor, color, name }))
        },
        Err(_) => Err(PresenceError),
    }
}

proof fn lemma_state_of<C: Point>(cursor: C, color: Rgb, name: Seq<char>)
    ensures
        (cursor.coords() + color.words()).len() == C::dimension() + 3,
        state_of::<C>(cursor.coords() + color.words(), name) == (PresenceView {
            cursor,
            color,
            name,
        }),
{
    cursor.lemma_coords();
    let words = cursor.coords() + color.words();
    assert(words[C::dimension() as int] == color.r);
    assert(words[C::dimension() as int + 1] == color.g);
    assert(words[C::dimension() as int + 2] == color.b);
}

/// Decoding gives back what was encoded, whatever bytes follow it. The name's
/// length in bytes must fit the machine's word.
pub proof fn presence_round_trip<C: Point>(state: PresenceView<C>, rest: Seq<u8>)
    requires
        encode_utf8(state.name).len() <= usize::MAX,
    ensures
        decoded::<C>(encoded(state) + rest) == Ok::<_, PresenceError>(Some(state)),
{
    lemma_state_of(state.cursor, state.color, state.name);
    frame_round_trip(
        PRESENCE_VERSION,
        state.cursor.coords() + state.color.words(),
        state.name,
        rest,
    );
}

/// A frame of any other version is dropped without an error, whatever its
/// payload looks like.
pub proof fn other_versions_are_dropped<C: Point>(version: u16, payload: Seq<u8>)
    requires
        version != PRESENCE_VERSION,
    ensures
        decoded::<C>(varint(version as nat) + payload) == Ok::<
            Option<PresenceView<C>>,
            PresenceError,
        >(None),
{
    version_round_trip(version, payload);
}

/// The peers that are around, by what they last told.
#[derive(Debug)]
pub struct Presence<C> {
    pub peers: Table<PeerId, PresenceState<C>>,
}

impl<C> Presence<C> {
    pub open spec fn wf(self) -> bool {
        self.peers.wf()
    }

    pub open spec fn states(self) -> Map<PeerId, PresenceView<C>> {
        self.peers@.map_values(|s: PresenceState<C>| s@)
    }

    pub fn new() -> (r: Self)
        ensures
            r.wf(),
            r.states() == Map::<PeerId, PresenceView<C>>::empty(),
    {
        let r = Presence { peers: Table::new() };
        assert(r.states() =~= Map::<PeerId, PresenceView<C>>::empty());
        r
    }
}

/// Something that happened to the peers that are around.
#[derive(Debug)]
pub enum PresenceEvent<C> {
    Joined { peer: PeerId, state: PresenceState<C> },
    Updated { peer: PeerId, state: PresenceState<C> },
    Left { peer: PeerId },
}

pub enum PresenceEventView<C> {
    Joined { peer: PeerId, state: PresenceView<C> },
    Updated { peer: PeerId, state: PresenceView<C> },
    Left { peer: PeerId },
}

impl<C> View for PresenceEvent<C> {
    type V = PresenceEventView<C>;

    open spec fn view(&self) -> PresenceEventView<C> {
        match *self {
            PresenceEvent::Joined { peer, state } => PresenceEventView::Joined {
                peer,
                state: state@,
            },
            PresenceEvent::Updated { peer, state } => PresenceEventView::Updated {
                peer,
                state: state@,
            },
            PresenceEvent::Left { peer } => PresenceEventView::Left { peer },
        }
    }
}

pub open spec fn event_views<C>(events: Seq<PresenceEvent<C>>) -> Seq<PresenceEventView<C>> {
    events.map_values(|e: PresenceEvent<C>| e@)
}

/// The frames last received, one per peer, not yet decoded.
#[derive(Debug)]
pub struct RawPresence(pub Vec<(PeerId, Vec<u8>)>);

/// A change to the frames received.
#[derive(Debug)]
pub enum RawPresenceEvent {
    /// All frames were replaced.
    Snapshot,
    Updated { peer: PeerId, state: Vec<u8> },
    Left { peer: PeerId },
}

/// The peers that are around, and the events told so far.
#[verifier::ext_equal]
pub struct Room<C> {
    pub peers: Map<PeerId, PresenceView<C>>,
    pub events: Seq<PresenceEventView<C>>,
}

/// A peer's frame came in: where it decodes, the peer is around with that
/// state. It joins if `fresh` or unknown, else it is updated.
pub open spec fn frame_came<C: Point>(
    room: Room<C>,
    peer: PeerId,
    bytes: Seq<u8>,
    fresh: bool,
) -> Room<C> {
    match decoded::<C>(bytes) {
        Ok(Some(state)) => Room {
            peers: room.peers.insert(peer, state),
            events: room.events.push(
                if fresh || !room.peers.dom().contains(peer) {
                    PresenceEventView::Joined { peer, state }
                } else {
                    PresenceEventView::Updated { peer, state }
                },
            ),
        },
        _ => room,
    }
}

/// All the given frames came in afresh, in order.
pub open spec fn frames_came<C: Point>(room: Room<C>, raw: Seq<(PeerId, Vec<u8>)>) -> Room<C>
    decreases raw.len(),
{
    if raw.len() == 0 {
        room
    } else {
        frame_came(frames_came(room, raw.drop_last()), raw.last().0, raw.last().1@, true)
    }
}

pub open spec fn room_step<C: Point>(
    room: Room<C>,
    event: RawPresenceEvent,
    raw: Seq<(PeerId, Vec<u8>)>,
) -> Room<C> {
    match event {
        RawPresenceEvent::Snapshot => frames_came(
            Room { peers: Map::empty(), events: room.events },
            raw,
        ),
        RawPresenceEvent::Updated { peer, state } => frame_came(room, peer, state@, false),
        RawPresenceEvent::Left { peer } => Room {
            peers: room.peers.remove(peer),
            events: room.events.push(PresenceEventView::Left { peer }),
        },
    }
}

pub open spec fn room_after<C: Point>(
    room: Room<C>,
    events: Seq<RawPresenceEvent>,
    raw: Seq<(PeerId, Vec<u8>)>,
) -> Room<C>
    decreases events.len(),
{
    if events.len() == 0 {
        room
    } else {
        room_step(room_after(room, events.drop_last(), raw), events.last(), raw)
    }
}

pub open spec fn room_of<C>(typed: Presence<C>, events: Seq<PresenceEvent<C>>) -> Room<C> {
    Room { peers: typed.states(), events: event_views(events) }
}

/// One frame of one peer.
fn take_frame<C: Point>(
    peer: PeerId,
    bytes: &Vec<u8>,
    fresh: bool,
    typed: &mut Presence<C>,
    events: &mut Vec<PresenceEvent<C>>,
)
    requires
        old(typed).wf(),
    ensures
        final(typed).wf(),
        room_of(*final(typed), final(events)@) == frame_came(
            room_of(*old(typed), old(events)@),
            peer,
            bytes@,
            fresh,
        ),
{
    match decode_presence::<C>(bytes.as_slice()) {
        Ok(Some(state)) => {
            let joins = fresh || !typed.peers.contains(peer);
            let told = state.clone();
            typed.peers.insert(peer, state);
            assert(typed.states() =~= old(typed).states().insert(peer, state@));
            if joins {
                events.push(PresenceEvent::Joined { peer, state: told });
            } else {
                events.push(PresenceEvent::Updated { peer, state: told });
            }
            assert(event_views(events@) =~= event_views(old(events)@).push(events@.last()@));
        },
        Ok(None) => {},
        Err(_) => {},
    }
}

/// Decodes the changes to the received frames into the peers that are around,
/// and tells of each. Frames that do not decode are passed over.
pub fn update_typed_presence<C: Point>(
    raw_events: &Vec<RawPresenceEvent>,
    raw: &RawPresence,
    typed: &mut Presence<C>,
    events: &mut Vec<PresenceEvent<C>>,
)
    requires
        old(typed).wf(),
    ensures
        final(typed).wf(),
        room_of(*final(typed), final(events)@) == room_after(
            room_of(*old(typed), old(events)@),
            raw_events@,
            raw.0@,
        ),
{
    let ghost start = room_of(*typed, events@);
    let mut i: usize = 0;
    while i < raw_events.len()
        invariant
            i <= raw_events@.len(),
            typed.wf(),
            room_of(*typed, events@) == room_after(start, raw_events@.take(i as int), raw.0@),
        decreases raw_events@.len() - i,
    {
        let ghost before = room_of(*typed, events@);
        match &raw_events[i] {
            RawPresenceEvent::Snapshot => {
                typed.peers.clear();
                let ghost cleared = Room::<C> { peers: Map::empty(), events: before.events };
                assert(room_of(*typed, events@) =~= cleared);
                let mut k: usize = 0;
                while k < raw.0.len()
                    invariant
                        k <= raw.0@.len(),
                        typed.wf(),
                        room_of(*typed, events@) == frames_came(cleared, raw.0@.take(k as int)),
                    decreases raw.0@.len() - k,
                {
                    take_frame(raw.0[k].0, &raw.0[k].1, true, typed, events);
                    assert(raw.0@.take(k + 1).drop_last() =~= raw.0@.take(k as int));
                    k = k + 1;
                }
                assert(raw.0@.take(k as int) =~= raw.0@);
            },
            RawPresenceEvent::Updated { peer, state } => {
                take_frame(*peer, state, false, typed, events);
            },
            RawPresenceEvent::Left { peer } => {
                typed.peers.remove(*peer);
                events.push(PresenceEvent::Left { peer: *peer });
                assert(typed.states() =~= before.peers.remove(*peer));
                assert(event_views(events@) =~= before.events.push(events@.last()@));
            },
        }
        assert(raw_events@.take(i + 1).drop_last() =~= raw_events@.take(i as int));
        i = i + 1;
    }
    assert(raw_events@.take(i as int) =~= raw_events@);
}

/// A snapshot leaves exactly those peers around whose frame decodes, each with
/// the state of its frame.
pub proof fn snapshot_replaces_peers<C: Point>(
    room: Room<C>,
    raw: Seq<(PeerId, Vec<u8>)>,
    peer: PeerId,
)
    requires
        crate::table::distinct_keys(raw),
    ensures
        ({
            let after = room_step(room, RawPresenceEvent::Snapshot, raw);
            &&& after.peers.dom().contains(peer) <==> exists|i: int|
                0 <= i < raw.len() && (#[trigger] raw[i]).0 == peer && (decoded::<C>(
                    raw[i].1@,
                ) matches Ok(Some(_)))
            &&& forall|i: int|
                0 <= i < raw.len() && (#[trigger] raw[i]).0 == peer && after.peers.dom().contains(
                    peer,
                ) ==> decoded::<C>(raw[i].1@) == Ok::<_, PresenceError>(Some(after.peers[peer]))
        }),
{
    lemma_frames_came(Room { peers: Map::empty(), events: room.events }, raw, peer);
}

proof fn lemma_frames_came<C: Point>(room: Room<C>, raw: Seq<(PeerId, Vec<u8>)>, peer: PeerId)
    requires
        room.peers == Map::<PeerId, PresenceView<C>>::empty(),
        crate::table::distinct_keys(raw),
    ensures
        ({
            let after = frames_came(room, raw);
            &&& after.peers.dom().contains(peer) <==> exists|i: int|
                0 <= i < raw.len() && (#[trigger] raw[i]).0 == peer && (decoded::<C>(
                    raw[i].1@,
                ) matches Ok(Some(_)))
            &&& forall|i: int|
                0 <= i < raw.len() && (#[trigger] raw[i]).0 == peer && after.peers.dom().contains(
                    peer,
                ) ==> decoded::<C>(raw[i].1@) == Ok::<_, PresenceError>(Some(after.peers[peer]))
        }),
    decreases raw.len(),
{
    if raw.len() > 0 {
        let init = raw.drop_last();
        let last = raw.last();
        let n = raw.len() - 1;
        lemma_frames_came(room, init, peer);
        assert forall|i: int| 0 <= i < n implies (#[trigger] init[i]) == raw[i] && raw[i].0
            != last.0 by {
            assert(raw[i].0 != raw[n].0);
        }
        assert(raw[n] == last);
        let after = frames_came(room, raw);
        if after.peers.dom().contains(peer) {
            if last.0 == peer && (decoded::<C>(last.1@) matches Ok(Some(_))) {
                assert(raw[n].0 == peer);
            } else {
                let i = choose|i: int|
                    0 <= i < init.len() && (#[trigger] init[i]).0 == peer && (decoded::<C>(
                        init[i].1@,
                    ) matches Ok(Some(_)));
                assert(raw[i] == init[i]);
            }
        }
        if exists|i: int|
            0 <= i < raw.len() && (#[trigger] raw[i]).0 == peer && (decoded::<C>(
                raw[i].1@,
            ) matches Ok(Some(_))) {
            let i = choose|i: int|
                0 <= i < raw.len() && (#[trigger] raw[i]).0 == peer && (decoded::<C>(
                    raw[i].1@,
                ) matches Ok(Some(_)));
            if i < n {
                assert(init[i].0 == peer);
            }
        }
        assert forall|i: int|
            0 <= i < raw.len() && (#[trigger] raw[i]).0 == peer && after.peers.dom().contains(
                peer,
            ) implies decoded::<C>(raw[i].1@) == Ok::<_, PresenceError>(
            Some(after.peers[peer]),
        ) by {
            if i < n {
                assert(init[i].0 == peer);
            }
        }
    }
}

/// What one peer broadcasts, every other peer that takes it in sees: the sender
/// is then around with that very state, and is told of as joined exactly if it
/// was not around before.
pub proof fn broadcast_is_seen<C: Point>(
    room: Room<C>,
    peer: PeerId,
    state: PresenceView<C>,
    frame: Vec<u8>,
    raw: Seq<(PeerId, Vec<u8>)>,
)
    requires
        encode_utf8(state.name).len() <= usize::MAX,
        frame@ == encoded(state),
    ensures
        ({
            let after = room_step(room, RawPresenceEvent::Updated { peer, state: frame }, raw);
            &&& after.peers == room.peers.insert(peer, state)
            &&& after.events == room.events.push(
                if room.peers.dom().contains(peer) {
                    PresenceEventView::Updated { peer, state }
                } else {
                    PresenceEventView::Joined { peer, state }
                },
            )
        }),
{
    presence_round_trip(state, Seq::empty());
    assert(encoded(state) + Seq::<u8>::empty() =~= encoded(state));
}

/// Where the connection to the room stands.
#[derive(Clone, Copy, Debug, PartialEq, Eq, Structural)]
pub enum SyncStatus {
    Disconnected,
    Connecting,
    Connected { peer: PeerId },
}

/// The state last broadcast, so that the same state is not sent twice.
#[derive(Debug)]
pub struct LocalPresence<C>(pub PresenceState<C>);

/// Whether two states say the same, coordinates and channels taken as numbers.
pub open spec fn same_state<C: Point>(a: PresenceView<C>, b: PresenceView<C>) -> bool {
    same_numbers(a.cursor.coords(), b.cursor.coords()) && same_numbers(
        a.color.words(),
        b.color.words(),
    ) && a.name == b.name
}

/// The state that a peer tells with its cursor at `cursor`.
pub open spec fn told_state<C>(peer: PeerId, cursor: C, color: Rgb) -> PresenceView<C> {
    PresenceView { cursor, color, name: "peer "@ + decimal(peer as nat) }
}

/// Whether a broadcast goes out: connected, with the cursor in the view, at a
/// state other than the last one sent, and not before the next frame is due.
pub open spec fn broadcasts<C: Point>(
    status: SyncStatus,
    cursor: Option<C>,
    color: Rgb,
    due: bool,
    last: PresenceView<C>,
) -> bool {
    match (status, cursor) {
        (SyncStatus::Connected { peer }, Some(at)) => due && !same_state(
            told_state(peer, at, color),
            last,
        ),
        _ => false,
    }
}

/// Broadcasts the local cursor: the frame to send, if any. `color` is the
/// colour of the connected peer, and `due` says whether the rate cap allows
/// another frame.
pub fn broadcast_local_cursor<C: Point>(
    status: SyncStatus,
    cursor: Option<C>,
    color: Rgb,
    due: bool,
    local: &mut LocalPresence<C>,
) -> (r: Option<Vec<u8>>)
    ensures
        r is Some <==> broadcasts(status, cursor, color, due, old(local).0@),
        r is None ==> *final(local) == *old(local),
        r matches Some(bytes) ==> final(local).0@ == told_state(
            status->Connected_peer,
            cursor->0,
            color,
        ) && bytes@ == encoded(final(local).0@),
{
    match (status, cursor) {
        (SyncStatus::Connected { peer }, Some(at)) => {
            let mut name = "peer ".to_owned();
            push_decimal(&mut name, peer);
            let state = PresenceState { cursor: at, color, name };
            if state.cursor.same_point(&local.0.cursor) && state.color.same(&local.0.color)
                && same_text(&state.name, &local.0.name) {
                return None;
            }
            if !due {
                return None;
            }
            match encode_presence(&state) {
                Ok(bytes) => {
                    local.0 = state;
                    Some(bytes)
                },
                Err(_) => None,
            }
        },
        _ => None,
    }
}

/// The cursor of a remote peer on the screen.
#[derive(Clone, Copy, Debug, PartialEq, Eq, Structural)]
pub struct RemoteCursor {
    pub peer: PeerId,
}

/// A cursor to draw for a peer that has none yet.
#[derive(Debug)]
pub struct CursorSpawn<C> {
    pub peer: PeerId,
    pub at: C,
    pub color: Rgb,
}

/// Where the cursors on the screen go: for each one, in order, its entity and
/// its new place, where the peer is around.
pub open spec fn cursor_moves<C>(
    cursors: Seq<(Entity, RemoteCursor)>,
    peers: Map<PeerId, PresenceView<C>>,
) -> Seq<(Entity, C)>
    decreases cursors.len(),
{
    if cursors.len() == 0 {
        Seq::empty()
    } else {
        let init = cursor_moves(cursors.drop_last(), peers);
        let (entity, cursor) = cursors.last();
        if peers.dom().contains(cursor.peer) {
            init.push((entity, peers[cursor.peer].cursor))
        } else {
            init
        }
    }
}

/// Whether a cursor of `peer` is on the screen.
pub open spec fn on_screen(cursors: Seq<(Entity, RemoteCursor)>, peer: PeerId) -> bool {
    exists|i: int| 0 <= i < cursors.len() && (#[trigger] cursors[i]).1.peer == peer
}

/// The cursors to draw, in the order in which the peers are kept: one for each
/// peer other than the local one that has none on the screen.
pub open spec fn cursor_spawns<C>(
    entries: Seq<(PeerId, PresenceState<C>)>,
    local: Option<PeerId>,
    cursors: Seq<(Entity, RemoteCursor)>,
) -> Seq<CursorSpawn<C>>
    decreases entries.len(),
{
    if entries.len() == 0 {
        Seq::empty()
    } else {
        let init = cursor_spawns(entries.drop_last(), local, cursors);
        let (peer, state) = entries.last();
        if Some(peer) == local || on_screen(cursors, peer) {
            init
        } else {
            init.push(CursorSpawn { peer, at: state.cursor, color: state.color })
        }
    }
}

/// The peer id under which this client is connected.
pub open spec fn local_peer(status: SyncStatus) -> Option<PeerId> {
    match status {
        SyncStatus::Connected { peer } => Some(peer),
        _ => None,
    }
}

/// Places the remote cursors: the moves of those on the screen, and the cursors
/// to draw for peers that have none. The local peer gets no cursor.
pub fn spawn_or_move_remote_cursors<C: Point>(
    presence: &Presence<C>,
    status: SyncStatus,
    cursors: &Vec<(Entity, RemoteCursor)>,
) -> (r: (Vec<(Entity, C)>, Vec<CursorSpawn<C>>))
    requires
        presence.wf(),
    ensures
        r.0@ == cursor_moves(cursors@, presence.states()),
        r.1@ == cursor_spawns(presence.peers.entries@, local_peer(status), cursors@),
{
    let mut moves: Vec<(Entity, C)> = Vec::new();
    let mut i: usize = 0;
    while i < cursors.len()
        invariant
            i <= cursors@.len(),
            presence.wf(),
            moves@ == cursor_moves(cursors@.take(i as int), presence.states()),
        decreases cursors@.len() - i,
    {
        if let Some(state) = presence.peers.get(cursors[i].1.peer) {
            moves.push((cursors[i].0, state.cursor));
        }
        assert(cursors@.take(i + 1).drop_last() =~= cursors@.take(i as int));
        i = i + 1;
    }
    assert(cursors@.take(i as int) =~= cursors@);
    let local: Option<PeerId> = match status {
        SyncStatus::Connected { peer } => Some(peer),
        _ => None,
    };
    let mut spawns: Vec<CursorSpawn<C>> = Vec::new();
    let mut k: usize = 0;
    while k < presence.peers.entries.len()
        invariant
            k <= presence.peers.entries@.len(),
            local == local_peer(status),
            spawns@ == cursor_spawns(presence.peers.entries@.take(k as int), local, cursors@),
        decreases presence.peers.entries@.len() - k,
    {
        let peer: PeerId = presence.peers.entries[k].0;
        let state = &presence.peers.entries[k].1;
        let is_local = match local {
            Some(p) => p == peer,
            None => false,
        };
        if !is_local && !has_cursor(cursors, peer) {
            spawns.push(CursorSpawn { peer, at: state.cursor, color: state.color });
        }
        assert(presence.peers.entries@.take(k + 1).drop_last()
            =~= presence.peers.entries@.take(k as int));
        k = k + 1;
    }
    assert(presence.peers.entries@.take(k as int) =~= presence.peers.entries@);
    (moves, spawns)
}

fn has_cursor(cursors: &Vec<(Entity, RemoteCursor)>, peer: PeerId) -> (r: bool)
    ensures
        r == on_screen(cursors@, peer),
{
    let mut i: usize = 0;
    while i < cursors.len()
        invariant
            i <= cursors@.len(),
            forall|k: int| 0 <= k < i ==> (#[trigger] cursors@[k]).1.peer != peer,
        decreases cursors@.len() - i,
    {
        if cursors[i].1.peer == peer {
            return true;
        }
        i = i + 1;
    }
    false
}

/// Whether a cursor's peer is gone.
pub open spec fn left_peers<C>(peers: Map<PeerId, PresenceView<C>>) -> spec_fn(
    (Entity, RemoteCursor),
) -> bool {
    |c: (Entity, RemoteCursor)| !peers.dom().contains(c.1.peer)
}

/// The entities of cursors.
pub open spec fn cursor_entities(cursors: Seq<(Entity, RemoteCursor)>) -> Seq<Entity> {
    cursors.map_values(|c: (Entity, RemoteCursor)| c.0)
}

/// The cursors to take off the screen, because their peers are gone.
pub fn despawn_left_cursors<C: Point>(
    presence: &Presence<C>,
    cursors: &Vec<(Entity, RemoteCursor)>,
) -> (r: Vec<Entity>)
    requires
        presence.wf(),
    ensures
        r@ == cursor_entities(cursors@.filter(left_peers(presence.states()))),
{
    let ghost gone = left_peers(presence.states());
    let mut r: Vec<Entity> = Vec::new();
    let mut i: usize = 0;
    proof {
        reveal(Seq::filter);
        assert(r@ =~= cursor_entities(cursors@.take(0).filter(gone)));
    }
    while i < cursors.len()
        invariant
            i <= cursors@.len(),
            presence.wf(),
            gone == left_peers(presence.states()),
            r@ == cursor_entities(cursors@.take(i as int).filter(gone)),
        decreases cursors@.len() - i,
    {
        proof {
            crate::seqs::lemma_filter_step(cursors@, i as int, gone);
        }
        if !presence.peers.contains(cursors[i].1.peer) {
            r.push(cursors[i].0);
        }
        i = i + 1;
        assert(r@ =~= cursor_entities(cursors@.take(i as int).filter(gone)));
    }
    assert(cursors@.take(i as int) =~= cursors@);
    r
}

/// Whether a cursor of `peer` is among those to draw.
pub open spec fn spawned<C>(spawns: Seq<CursorSpawn<C>>, peer: PeerId) -> bool {
    exists|i: int| 0 <= i < spawns.len() && (#[trigger] spawns[i]).peer == peer
}

/// After the cursors were placed, every peer that is around, but the local one,
/// has a cursor on the screen or one to be drawn, never both, and a cursor is
/// drawn for no one else.
pub proof fn cursors_follow_presence<C: Point>(
    presence: Presence<C>,
    status: SyncStatus,
    cursors: Seq<(Entity, RemoteCursor)>,
    peer: PeerId,
)
    requires
        presence.wf(),
    ensures
        spawned(
            cursor_spawns(presence.peers.entries@, local_peer(status), cursors),
            peer,
        ) <==> presence.states().dom().contains(peer) && local_peer(status) != Some(peer)
            && !on_screen(cursors, peer),
{
    let entries = presence.peers.entries@;
    lemma_spawned(entries, local_peer(status), cursors, peer);
    let spawns = cursor_spawns(entries, local_peer(status), cursors);
    if spawned(spawns, peer) {
        let i = choose|i: int| 0 <= i < spawns.len() && (#[trigger] spawns[i]).peer == peer;
        assert(spawns[i].peer == peer);
        let k = choose|k: int| 0 <= k < entries.len() && (#[trigger] entries[k]).0 == peer;
        crate::table::lemma_entry(entries, k);
    }
    if presence.states().dom().contains(peer) {
        let k = choose|k: int| 0 <= k < entries.len() && (#[trigger] entries[k]).0 == peer;
        assert(entries[k].0 == peer);
    }
}

proof fn lemma_spawned<C>(
    entries: Seq<(PeerId, PresenceState<C>)>,
    local: Option<PeerId>,
    cursors: Seq<(Entity, RemoteCursor)>,
    peer: PeerId,
)
    ensures
        spawned(cursor_spawns(entries, local, cursors), peer) <==> (exists|k: int|
            0 <= k < entries.len() && (#[trigger] entries[k]).0 == peer) && local != Some(peer)
            && !on_screen(cursors, peer),
    decreases entries.len(),
{
    if entries.len() > 0 {
        let init = entries.drop_last();
        let n = entries.len() - 1;
        lemma_spawned(init, local, cursors, peer);
        let before = cursor_spawns(init, local, cursors);
        let after = cursor_spawns(entries, local, cursors);
        if spawned(after, peer) {
            let i = choose|i: int| 0 <= i < after.len() && (#[trigger] after[i]).peer == peer;
            if i < before.len() {
                assert(before[i].peer == peer);
                let k = choose|k: int| 0 <= k < init.len() && (#[trigger] init[k]).0 == peer;
                assert(entries[k].0 == peer);
            } else {
                assert(entries[n].0 == peer);
            }
        }
        if (exists|k: int| 0 <= k < entries.len() && (#[trigger] entries[k]).0 == peer) && local
            != Some(peer) && !on_screen(cursors, peer) {
            let k = choose|k: int| 0 <= k < entries.len() && (#[trigger] entries[k]).0 == peer;
            if k < n {
                assert(init[k].0 == peer);
                let i = choose|i: int|
                    0 <= i < before.len() && (#[trigger] before[i]).peer == peer;
                assert(after[i].peer == peer);
            } else {
                assert(after[before.len() as int].peer == peer);
            }
        }
    }
}

/// The hue of a peer's colour, in degrees: the same on every client and after
/// every reconnect.
pub open spec fn hue_of(peer: PeerId) -> nat {
    (((peer as nat) * 2654435761nat) % 0x1_0000_0000_0000_0000nat) % 360
}

pub fn peer_hue(peer: PeerId) -> (r: u64)
    ensures
        r == hue_of(peer),
        r < 360,
{
    peer.wrapping_mul(2654435761) % 360
}

/// A frame that decodes puts its peer among those around, with the state of the
/// frame, and leaves the others; the peer is told as joined where it was not
/// around or the frames come in afresh, else as updated. A frame that does not
/// decode, or is of another version, changes nothing and tells nothing.
pub proof fn frame_updates_its_peer<C: Point>(
    room: Room<C>,
    peer: PeerId,
    frame: Vec<u8>,
    raw: Seq<(PeerId, Vec<u8>)>,
    other: PeerId,
)
    ensures
        ({
            let after = room_step(room, RawPresenceEvent::Updated { peer, state: frame }, raw);
            match decoded::<C>(frame@) {
                Ok(Some(state)) => {
                    &&& after.peers.dom().contains(peer)
                    &&& after.peers[peer] == state
                    &&& other != peer ==> (after.peers.dom().contains(other)
                        <==> room.peers.dom().contains(other))
                    &&& other != peer && room.peers.dom().contains(other) ==> after.peers[other]
                        == room.peers[other]
                    &&& after.events.len() == room.events.len() + 1
                    &&& after.events.drop_last() == room.events
                    &&& room.peers.dom().contains(peer) ==> after.events.last() == (
                    PresenceEventView::Updated { peer, state })
                    &&& !room.peers.dom().contains(peer) ==> after.events.last() == (
                    PresenceEventView::Joined { peer, state })
                },
                _ => after == room,
            }
        }),
{
    let after = room_step(room, RawPresenceEvent::Updated { peer, state: frame }, raw);
    if after.events.len() > room.events.len() {
        assert(after.events.drop_last() =~= room.events);
    }
}

/// A peer that leaves is around no longer, the others stay, and its leaving is
/// told.
pub proof fn leaving_peer_is_gone<C: Point>(
    room: Room<C>,
    peer: PeerId,
    raw: Seq<(PeerId, Vec<u8>)>,
    other: PeerId,
)
    ensures
        ({
            let after = room_step(room, RawPresenceEvent::Left { peer }, raw);
            &&& !after.peers.dom().contains(peer)
            &&& other != peer ==> (after.peers.dom().contains(other) <==> room.peers.dom().contains(
                other,
            ))
            &&& other != peer && room.peers.dom().contains(other) ==> after.peers[other]
                == room.peers[other]
            &&& after.events == room.events.push(PresenceEventView::Left { peer })
        }),
{
}

/// After a snapshot everyone around is told as joined: what was told before
/// stays, and behind it comes one event for each frame that decodes, in order.
pub proof fn snapshot_tells_joins<C: Point>(
    room: Room<C>,
    raw: Seq<(PeerId, Vec<u8>)>,
    next: (PeerId, Vec<u8>),
)
    ensures
        room_step(room, RawPresenceEvent::Snapshot, Seq::empty()).events == room.events,
        room_step(room, RawPresenceEvent::Snapshot, raw.push(next)).events == (match decoded::<C>(
            next.1@,
        ) {
            Ok(Some(state)) => room_step(room, RawPresenceEvent::Snapshot, raw).events.push(
                PresenceEventView::Joined { peer: next.0, state },
            ),
            _ => room_step(room, RawPresenceEvent::Snapshot, raw).events,
        }),
{
    assert(raw.push(next).drop_last() =~= raw);
}

/// Changes are taken in one after the other.
pub proof fn changes_come_in_order<C: Point>(
    room: Room<C>,
    events: Seq<RawPresenceEvent>,
    last: RawPresenceEvent,
    raw: Seq<(PeerId, Vec<u8>)>,
)
    ensures
        room_after(room, Seq::<RawPresenceEvent>::empty(), raw) == room,
        room_after(room, events.push(last), raw) == room_step(
            room_after(room, events, raw),
            last,
            raw,
        ),
{
    assert(events.push(last).drop_last() =~= events);
}

/// A broadcast goes out only while connected, with the cursor in view and a frame
/// due, and then exactly where the cursor, the colour or the name differs from
/// what was sent last. It tells the name `peer` and the peer's number.
pub proof fn broadcast_goes_out_on_change<C: Point>(
    status: SyncStatus,
    cursor: Option<C>,
    color: Rgb,
    due: bool,
    last: PresenceView<C>,
)
    ensures
        !(status is Connected) || cursor is None || !due ==> !broadcasts(
            status,
            cursor,
            color,
            due,
            last,
        ),
        status is Connected && cursor is Some && due ==> (broadcasts(
            status,
            cursor,
            color,
            due,
            last,
        ) <==> !same_numbers(cursor->0.coords(), last.cursor.coords()) || !same_numbers(
            color.words(),
            last.color.words(),
        ) || last.name != "peer "@ + decimal(status->Connected_peer as nat)),
        cursor is Some ==> {
            let told = told_state(status->Connected_peer, cursor->0, color);
            told.cursor == cursor->0 && told.color == color && told.name == "peer "@ + decimal(
                status->Connected_peer as nat,
            )
        },
{
}

/// What was just sent is not sent again: a state that is told, with numbers that
/// equal themselves, gives no second broadcast.
pub proof fn same_state_is_not_sent_twice<C: Point>(
    status: SyncStatus,
    cursor: C,
    color: Rgb,
    due: bool,
)
    requires
        status is Connected,
        forall|i: int| 0 <= i < cursor.coords().len() ==> !is_nan(#[trigger] cursor.coords()[i]),
        !is_nan(color.r) && !is_nan(color.g) && !is_nan(color.b),
    ensures
        !broadcasts(
            status,
            Some(cursor),
            color,
            due,
            told_state(status->Connected_peer, cursor, color),
        ),
{
}

/// Each cursor on the screen whose peer is around goes to where that peer's
/// cursor is, in order; one whose peer is gone is not moved.
pub proof fn cursors_move_to_their_peers<C>(
    cursors: Seq<(Entity, RemoteCursor)>,
    peers: Map<PeerId, PresenceView<C>>,
    next: (Entity, RemoteCursor),
)
    ensures
        cursor_moves(Seq::empty(), peers).len() == 0,
        peers.dom().contains(next.1.peer) ==> cursor_moves(cursors.push(next), peers)
            == cursor_moves(cursors, peers).push((next.0, peers[next.1.peer].cursor)),
        !peers.dom().contains(next.1.peer) ==> cursor_moves(cursors.push(next), peers)
            == cursor_moves(cursors, peers),
{
    assert(cursors.push(next).drop_last() =~= cursors);
}

/// A cursor is drawn where its peer's is, and in the colour of its peer.
pub proof fn drawn_cursor_is_as_told<C>(
    entries: Seq<(PeerId, PresenceState<C>)>,
    local: Option<PeerId>,
    cursors: Seq<(Entity, RemoteCursor)>,
    i: int,
)
    requires
        0 <= i < cursor_spawns(entries, local, cursors).len(),
    ensures
        exists|k: int|
            0 <= k < entries.len() && {
                let spawn = cursor_spawns(entries, local, cursors)[i];
                &&& (#[trigger] entries[k]).0 == spawn.peer
                &&& entries[k].1.cursor == spawn.at
                &&& entries[k].1.color == spawn.color
                &&& local != Some(spawn.peer)
            },
    decreases entries.len(),
{
    let init = entries.drop_last();
    let before = cursor_spawns(init, local, cursors);
    if i < before.len() {
        drawn_cursor_is_as_told(init, local, cursors, i);
        let k = choose|k: int|
            0 <= k < init.len() && (#[trigger] init[k]).0 == before[i].peer && init[k].1.cursor
                == before[i].at && init[k].1.color == before[i].color && local != Some(
                before[i].peer,
            );
        assert(entries[k] == init[k]);
    } else {
        assert(entries[entries.len() - 1] == entries.last());
    }
}

/// The cursors taken off the screen are exactly those whose peers are gone.
pub proof fn cursors_of_gone_peers_go<C>(
    cursors: Seq<(Entity, RemoteCursor)>,
    peers: Map<PeerId, PresenceView<C>>,
    e: Entity,
)
    ensures
        cursor_entities(cursors.filter(left_peers(peers))).contains(e) <==> exists|i: int|
            0 <= i < cursors.len() && (#[trigger] cursors[i]).0 == e && !peers.dom().contains(
                cursors[i].1.peer,
            ),
{
    let gone = cursors.filter(left_peers(peers));
    if cursor_entities(gone).contains(e) {
        let k = choose|k: int|
            0 <= k < cursor_entities(gone).len() && cursor_entities(gone)[k] == e;
        assert(gone.contains(gone[k]));
        crate::seqs::lemma_filter_contains(cursors, left_peers(peers), gone[k]);
        let i = choose|i: int| 0 <= i < cursors.len() && cursors[i] == gone[k];
        assert(cursors[i].0 == e);
    }
    if exists|i: int|
        0 <= i < cursors.len() && (#[trigger] cursors[i]).0 == e && !peers.dom().contains(
            cursors[i].1.peer,
        ) {
        let i = choose|i: int|
            0 <= i < cursors.len() && (#[trigger] cursors[i]).0 == e && !peers.dom().contains(
                cursors[i].1.peer,
            );
        assert(cursors.contains(cursors[i]));
        crate::seqs::lemma_filter_contains(cursors, left_peers(peers), cursors[i]);
        let k = choose|k: int| 0 <= k < gone.len() && gone[k] == cursors[i];
        assert(cursor_entities(gone)[k] == e);
    }
}

/// Hues go round the circle in equal steps: as long as the product does not wrap,
/// each peer's is 241 degrees beyond that of the peer before it.
pub proof fn hues_go_round(peer: PeerId)
    requires
        (peer + 1) * 2654435761 < 0x1_0000_0000_0000_0000,
    ensures
        hue_of(0) == 0,
        hue_of((peer + 1) as u64) == (hue_of(peer) + 241) % 360,
        hue_of(peer) < 360,
{
    let k = 2654435761nat;
    let a = peer as nat * k;
    let b = (peer + 1) as nat * k;
    let word = 0x1_0000_0000_0000_0000nat;
    assert(b == a + k) by (nonlinear_arith)
        requires
            a == peer as nat * k,
            b == (peer + 1) as nat * k,
    ;
    vstd::arithmetic::div_mod::lemma_small_mod(a, word);
    vstd::arithmetic::div_mod::lemma_small_mod(b, word);
    vstd::arithmetic::div_mod::lemma_add_mod_noop(a as int, k as int, 360);
    assert(k % 360 == 241);
    vstd::arithmetic::div_mod::lemma_add_mod_noop((a % 360) as int, 241, 360);
    assert(hue_of(peer) == a % 360);
    assert(hue_of((peer + 1) as u64) == b % 360);
}

} // verus!
