//! Datagram header codec and the circular package ID space.
use vstd::prelude::*;
use vstd::slice::slice_subrange;

verus! {

/// Number of bytes (at the beginning of each datagram) used up by the header.
pub const HEADER_SIZE: usize = 4;

/// This bit is set in protocol control datagrams.
pub const CONTROL_BIT: u8 = 0x80;

/// This bit is set on datagrams which must be delivered reliably.
pub const RELIABLE_BIT: u8 = 0x40;

/// This bit is set on datagrams which are sent to the server instead of other
/// players.
pub const SERVER_PEER_BIT: u8 = 0x20;

/// Largest package ID; its successor wraps around to zero.
pub const MAX_ID: u32 = 0xffffff;

/// IDs at least this far apart are ordered against their numeric order.
pub const HALF_ID_SPACE: u32 = 0x800000;

/// Number of distinct package IDs.
pub open spec fn id_space() -> nat {
    0x1000000
}

/// Distance from which the numeric order of two IDs is inverted: half the
/// ID space.
pub open spec fn half_space() -> nat {
    0x800000
}

/// The successor of an ID in the circular ID space.
pub open spec fn next_id(v: nat) -> nat {
    if v >= MAX_ID { 0 } else { v + 1 }
}

/// `v` incremented `n` times.
pub open spec fn advance_id(v: nat, n: nat) -> nat
    decreases n,
{
    if n == 0 { v } else { next_id(advance_id(v, (n - 1) as nat)) }
}

/// Relative order of two IDs: numeric, but inverted when the IDs are at least
/// half the ID space apart.
pub open spec fn id_order(a: nat, b: nat) -> core::cmp::Ordering {
    if a == b {
        core::cmp::Ordering::Equal
    } else if a < b {
        if b - a < half_space() { core::cmp::Ordering::Less } else { core::cmp::Ordering::Greater }
    } else {
        if a - b < half_space() { core::cmp::Ordering::Greater } else { core::cmp::Ordering::Less }
    }
}

/// The three big-endian bytes of a 24-bit ID.
pub open spec fn id_to_bytes(v: nat) -> Seq<u8> {
    seq![(v / 0x10000 % 0x100) as u8, (v / 0x100 % 0x100) as u8, (v % 0x100) as u8]
}

/// The ID that three big-endian bytes encode.
pub open spec fn id_from_bytes(b: Seq<u8>) -> nat {
    (b[0] as nat) * 0x10000 + (b[1] as nat) * 0x100 + (b[2] as nat)
}

/// Decimal digit `d` as a character.
pub open spec fn digit_char(d: nat) -> char {
    seq!['0', '1', '2', '3', '4', '5', '6', '7', '8', '9'][d as int]
}

/// Decimal representation of `v`, without leading zeros.
pub open spec fn decimal(v: nat) -> Seq<char>
    decreases v,
{
    if v < 10 {
        seq![digit_char(v)]
    } else {
        decimal(v / 10) + seq![digit_char(v % 10)]
    }
}

fn digit_str(d: u32) -> (r: &'static str)
    requires
        d < 10,
    ensures
        r@ == seq![digit_char(d as nat)],
{
    proof {
        reveal_strlit("0");
        reveal_strlit("1");
        reveal_strlit("2");
        reveal_strlit("3");
        reveal_strlit("4");
        reveal_strlit("5");
        reveal_strlit("6");
        reveal_strlit("7");
        reveal_strlit("8");
        reveal_strlit("9");
    }
    let r = match d {
        0 => "0",
        1 => "1",
        2 => "2",
        3 => "3",
        4 => "4",
        5 => "5",
        6 => "6",
        7 => "7",
        8 => "8",
        _ => "9",
    };
    assert(r@ =~= seq![digit_char(d as nat)]);
    r
}

fn decimal_string(v: u32) -> (r: String)
    ensures
        r@ == decimal(v as nat),
    decreases v,
{
    if v < 10 {
        String::from_str(digit_str(v))
    } else {
        let mut r = decimal_string(v / 10);
        r.append(digit_str(v % 10));
        r
    }
}

/// Identifier of a package: a 24-bit counter that wraps around.
#[derive(Clone, Copy, Debug, PartialEq, Eq, Hash, Structural)]
pub struct PackageId(u32);

impl PackageId {
    #[verifier::type_invariant]
    closed spec fn inv(self) -> bool {
        self.0 <= MAX_ID
    }
}

impl View for PackageId {
    type V = nat;

    closed spec fn view(&self) -> nat {
        self.0 as nat
    }
}

impl PackageId {
    pub fn zero() -> (r: Self)
        ensures
            r@ == 0,
    {
        PackageId(0)
    }

    /// Increments the counter by one. It wraps around to zero after reaching
    /// maximum value.
    pub fn incremented(self) -> (r: Self)
        ensures
            r@ == next_id(self@),
            self@ == MAX_ID ==> r@ == 0,
            self@ < MAX_ID ==> r@ == self@ + 1,
            r@ <= MAX_ID,
    {
        proof {
            use_type_invariant(&self);
        }
        if self.0 >= MAX_ID {
            PackageId(0)
        } else {
            PackageId(self.0 + 1)
        }
    }

    /// Returns probable relative ordering of two package IDs.
    ///
    /// The ordering is circular due to wrapping around the maximum value and
    /// thus it is not transitive.
    pub fn ordering(self, other: PackageId) -> (r: core::cmp::Ordering)
        ensures
            r == id_order(self@, other@),
    {
        if self.0 == other.0 {
            core::cmp::Ordering::Equal
        } else if self.0 < other.0 {
            if other.0 - self.0 < HALF_ID_SPACE {
                core::cmp::Ordering::Less
            } else {
                core::cmp::Ordering::Greater
            }
        } else {
            if self.0 - other.0 < HALF_ID_SPACE {
                core::cmp::Ordering::Greater
            } else {
                core::cmp::Ordering::Less
            }
        }
    }

    /// The ID in decimal.
    pub fn to_string(&self) -> (r: String)
        ensures
            r@ == decimal(self@),
    {
        decimal_string(self.0)
    }

    /// Decodes an ID from exactly three big-endian bytes.
    pub fn from_bytes(bytes: &[u8]) -> (r: Self)
        requires
            bytes@.len() == 3,
        ensures
            r@ == id_from_bytes(bytes@),
            r@ <= MAX_ID,
    {
        let a = bytes[0] as u32 * 0x10000;
        let b = bytes[1] as u32 * 0x100;
        let c = bytes[2] as u32;
        PackageId(a + b + c)
    }

    /// Encodes the ID as three big-endian bytes.
    pub fn to_bytes(self) -> (r: [u8; 3])
        ensures
            r@ == id_to_bytes(self@),
    {
        let r = [(self.0 / 0x10000 % 0x100) as u8, (self.0 / 0x100 % 0x100) as u8, (self.0 % 0x100) as u8];
        assert(r@ =~= id_to_bytes(self@));
        r
    }
}

impl TryFrom<u32> for PackageId {
    type Error = &'static str;

    fn try_from(value: u32) -> (r: Result<Self, Self::Error>) {
        if value > MAX_ID {
            Err("ID is too large")
        } else {
            Ok(PackageId(value))
        }
    }
}

impl vstd::std_specs::convert::TryFromSpecImpl<u32> for PackageId {
    open spec fn obeys_try_from_spec() -> bool {
        true
    }

    closed spec fn try_from_spec(v: u32) -> Result<Self, Self::Error> {
        if v > MAX_ID {
            Err("ID is too large")
        } else {
            Ok(PackageId(v))
        }
    }
}

/// `r` holds an ID of value `v` exactly when `v` is in the ID space.
pub open spec fn id_try_from_ok(v: u32, r: Result<PackageId, &'static str>) -> bool {
    &&& v <= MAX_ID <==> r is Ok
    &&& r is Ok ==> r->Ok_0@ == v as nat
}

/// A value converts to an ID exactly when it lies in the ID space.
pub proof fn lemma_id_try_from(v: u32)
    ensures
        id_try_from_ok(v, <PackageId as vstd::std_specs::convert::TryFromSpec<u32>>::try_from_spec(v)),
{
}

/// The peer group a datagram is addressed to.
#[derive(Clone, Copy, Debug, PartialEq, Eq, Structural)]
pub enum Peers {
    /// Communication between networking server and a player/client.
    Server,
    /// Communication between a players (one-to-all).
    Players,
}

impl Peers {
    /// Name of the peer group.
    pub fn to_string(&self) -> (r: String)
        ensures
            r@ == peers_name(*self),
    {
        match self {
            Peers::Server => String::from_str("Server"),
            Peers::Players => String::from_str("Players"),
        }
    }
}

pub open spec fn peers_name(p: Peers) -> Seq<char> {
    match p {
        Peers::Server => "Server"@,
        Peers::Players => "Players"@,
    }
}

/// Header of a package datagram.
#[derive(Clone, Copy, Debug, PartialEq, Eq, Structural)]
pub struct PackageHeader {
    reliable: bool,
    peers: Peers,
    id: PackageId,
}

/// Abstract header: `None` for a confirmation, else the package's reliability,
/// peer group and ID.
pub type HeaderModel = Option<(bool, Peers, nat)>;

impl View for PackageHeader {
    type V = (bool, Peers, nat);

    closed spec fn view(&self) -> (bool, Peers, nat) {
        (self.reliable, self.peers, self.id@)
    }
}

impl PackageHeader {
    /// True if the package is delivered reliably.
    pub fn reliable(&self) -> (r: bool)
        ensures
            r == self@.0,
    {
        self.reliable
    }

    pub fn peers(&self) -> (r: Peers)
        ensures
            r == self@.1,
    {
        self.peers
    }

    pub fn id(&self) -> (r: PackageId)
        ensures
            r@ == self@.2,
    {
        self.id
    }
}

#[derive(Clone, Copy, Debug, PartialEq, Eq, Structural)]
pub enum DatagramHeader {
    Confirmation,
    Package(PackageHeader),
}

impl View for DatagramHeader {
    type V = HeaderModel;

    open spec fn view(&self) -> HeaderModel {
        match self {
            DatagramHeader::Confirmation => None,
            DatagramHeader::Package(p) => Some(p@),
        }
    }
}

#[derive(Clone, Copy, Debug, PartialEq, Eq, Structural)]
pub enum HeaderError {
    /// The header is invalid.
    Invalid,
}

/// The first header byte: control, reliability and peer group bits.
pub open spec fn header_mask(h: HeaderModel) -> u8 {
    match h {
        None => CONTROL_BIT,
        Some((reliable, peers, _)) => (if reliable { RELIABLE_BIT } else { 0u8 }) | (if peers
            == Peers::Server { SERVER_PEER_BIT } else { 0u8 }),
    }
}

/// The four bytes of an encoded header.
pub open spec fn encode_header(h: HeaderModel) -> Seq<u8> {
    match h {
        None => seq![CONTROL_BIT, 0u8, 0u8, 0u8],
        Some((_, _, id)) => seq![header_mask(h)] + id_to_bytes(id),
    }
}

/// The header that leading datagram bytes encode, or the decoding error.
pub open spec fn decode_header(b: Seq<u8>) -> Result<HeaderModel, HeaderError> {
    let mask = b[0];
    if mask & CONTROL_BIT != 0 {
        if mask == CONTROL_BIT {
            Ok(None)
        } else {
            Err(HeaderError::Invalid)
        }
    } else {
        Ok(
            Some(
                (
                    mask & RELIABLE_BIT != 0,
                    if mask & SERVER_PEER_BIT != 0 { Peers::Server } else { Peers::Players },
                    id_from_bytes(b.subrange(1, 4)),
                ),
            ),
        )
    }
}

pub open spec fn bool_text(b: bool) -> Seq<char> {
    if b { "true"@ } else { "false"@ }
}

/// Human readable form of a header.
pub open spec fn header_text(h: HeaderModel) -> Seq<char> {
    match h {
        None => "Confirmation"@,
        Some((reliable, peers, id)) => "Package { reliable: "@ + bool_text(reliable) + ", peers: "@
            + peers_name(peers) + ", id: "@ + decimal(id) + " }"@,
    }
}

impl DatagramHeader {
    /// Human readable form of the header.
    pub fn to_string(&self) -> (r: String)
        ensures
            r@ == header_text(self@),
    {
        match self {
            DatagramHeader::Confirmation => String::from_str("Confirmation"),
            DatagramHeader::Package(header) => {
                let mut r = String::from_str("Package { reliable: ");
                r.append(if header.reliable { "true" } else { "false" });
                r.append(", peers: ");
                r.append(header.peers.to_string().as_str());
                r.append(", id: ");
                r.append(header.id.to_string().as_str());
                r.append(" }");
                r
            },
        }
    }

    pub fn new_package(reliable: bool, peers: Peers, id: PackageId) -> (r: Self)
        ensures
            r@ == Some((reliable, peers, id@)),
    {
        DatagramHeader::Package(PackageHeader { reliable, peers, id })
    }

    /// Writes the header to the beginning of a bytes buffer; the rest of the
    /// buffer is kept.
    pub fn write(&self, buf: &mut [u8])
        requires
            old(buf)@.len() >= HEADER_SIZE,
        ensures
            final(buf)@ == encode_header(self@) + old(buf)@.subrange(
                HEADER_SIZE as int,
                old(buf)@.len() as int,
            ),
    {
        let (mask, id) = match self {
            DatagramHeader::Confirmation => (CONTROL_BIT, [0u8, 0u8, 0u8]),
            DatagramHeader::Package(package_header) => {
                let reliable_bit = if package_header.reliable { RELIABLE_BIT } else { 0u8 };
                let server_bit = if package_header.peers == Peers::Server {
                    SERVER_PEER_BIT
                } else {
                    0u8
                };
                (reliable_bit | server_bit, package_header.id.to_bytes())
            },
        };
        buf[0] = mask;
        buf[1] = id[0];
        buf[2] = id[1];
        buf[3] = id[2];
        assert(buf@ =~= encode_header(self@) + old(buf)@.subrange(
            HEADER_SIZE as int,
            old(buf)@.len() as int,
        ));
    }

    /// Reads the header from the beginning of a bytes buffer.
    pub fn read(data: &[u8]) -> (r: Result<Self, HeaderError>)
        requires
            data@.len() >= HEADER_SIZE,
        ensures
            decode_header(data@) == match r {
                Ok(h) => Ok(h@),
                Err(e) => Err::<HeaderModel, HeaderError>(e),
            },
    {
        let mask = data[0];
        if mask & CONTROL_BIT != 0 {
            if mask == CONTROL_BIT {
                Ok(DatagramHeader::Confirmation)
            } else {
                Err(HeaderError::Invalid)
            }
        } else {
            let reliable = mask & RELIABLE_BIT != 0;
            let peers = if mask & SERVER_PEER_BIT != 0 {
                Peers::Server
            } else {
                Peers::Players
            };
            let id_bytes = slice_subrange(data, 1, HEADER_SIZE);
            Ok(DatagramHeader::Package(PackageHeader { reliable, peers, id: PackageId::from_bytes(id_bytes) }))
        }
    }
}

/// Number of IDs from `start` (inclusive) up to `stop` (exclusive), going
/// around the ID space.
pub open spec fn id_distance(start: nat, stop: nat) -> nat {
    if start <= stop { (stop - start) as nat } else { (stop + id_space() - start) as nat }
}

/// `start + i` taken around the ID space once.
pub open spec fn wrapped_sum(start: nat, i: nat) -> int {
    if start + i < id_space() { (start + i) as int } else { start + i - id_space() }
}

/// Abstract generator state: the next ID and the optional exclusive stop.
pub type RangeModel = (nat, Option<nat>);

/// What the generator yields in state `st`: nothing once the stop is reached.
pub open spec fn range_yield(st: RangeModel) -> Option<nat> {
    if st.1 == Some(st.0) { None } else { Some(st.0) }
}

/// The generator state after one step from `st`.
pub open spec fn range_next(st: RangeModel) -> RangeModel {
    if st.1 == Some(st.0) { st } else { (next_id(st.0), st.1) }
}

/// The generator state after `n` steps from `st`.
pub open spec fn range_after(st: RangeModel, n: nat) -> RangeModel
    decreases n,
{
    if n == 0 {
        st
    } else {
        range_next(range_after(st, (n - 1) as nat))
    }
}

/// Generator of consecutive package IDs, either unbounded or up to an
/// exclusive stop.
pub struct PackageIdRange {
    current: PackageId,
    stop: Option<PackageId>,
}

impl View for PackageIdRange {
    type V = RangeModel;

    closed spec fn view(&self) -> RangeModel {
        (
            self.current@,
            match self.stop {
                Some(s) => Some(s@),
                None => None,
            },
        )
    }
}

impl PackageIdRange {
    /// An unbounded counter starting at zero.
    pub fn counter() -> (r: Self)
        ensures
            r@ == (0nat, None::<nat>),
    {
        PackageIdRange { current: PackageId::zero(), stop: None }
    }

    /// IDs from `start` (inclusive) to `stop` (exclusive).
    pub fn range(start: PackageId, stop: PackageId) -> (r: Self)
        ensures
            r@ == (start@, Some(stop@)),
    {
        PackageIdRange { current: start, stop: Some(stop) }
    }

    /// Yields the next ID, or `None` once the stop is reached.
    pub fn next(&mut self) -> (r: Option<PackageId>)
        ensures
            match r {
                Some(id) => range_yield(old(self)@) == Some(id@),
                None => range_yield(old(self)@) is None,
            },
            final(self)@ == range_next(old(self)@),
    {
        let current = self.current;
        match self.stop {
            Some(stop) => {
                if stop.0 == current.0 {
                    return None;
                }
            },
            None => {},
        }
        self.current = current.incremented();
        Some(current)
    }

    /// Bounds of the number of IDs still to come; exact for a bounded range.
    pub fn size_hint(&self) -> (r: (usize, Option<usize>))
        ensures
            self@.1 is None ==> r == (usize::MAX, None::<usize>),
            self@.1 matches Some(stop) ==> r.0 == id_distance(self@.0, stop) && r.1 == Some(r.0),
    {
        match self.stop {
            None => (usize::MAX, None),
            Some(stop) => {
                proof {
                    use_type_invariant(&self.current);
                    use_type_invariant(&stop);
                }
                let exact = if self.current.0 <= stop.0 {
                    stop.0 - self.current.0
                } else {
                    stop.0 + (MAX_ID - self.current.0) + 1
                };
                (exact as usize, Some(exact as usize))
            },
        }
    }
}

proof fn lemma_mask_bits(r: u8, s: u8)
    by (bit_vector)
    requires
        r == 0x40u8 || r == 0u8,
        s == 0x20u8 || s == 0u8,
    ensures
        (r | s) & 0x80u8 == 0u8,
        ((r | s) & 0x40u8 != 0u8) == (r == 0x40u8),
        ((r | s) & 0x20u8 != 0u8) == (s == 0x20u8),
{
}

proof fn lemma_id_bytes(v: u32)
    by (bit_vector)
    requires
        v <= 0xffffffu32,
    ensures
        ((v / 0x10000u32) % 0x100u32) * 0x10000u32 + ((v / 0x100u32) % 0x100u32) * 0x100u32 + (v
            % 0x100u32) == v,
{
}

/// Decoding an encoded header gives the header back, for every reliability,
/// peer group and ID of the ID space; a confirmation decodes as a
/// confirmation.
pub proof fn lemma_header_round_trip(reliable: bool, peers: Peers, id: nat)
    requires
        id <= MAX_ID,
    ensures
        decode_header(encode_header(Some((reliable, peers, id)))) == Ok::<HeaderModel, HeaderError>(
            Some((reliable, peers, id)),
        ),
        decode_header(encode_header(None)) == Ok::<HeaderModel, HeaderError>(None),
{
    let h: HeaderModel = Some((reliable, peers, id));
    let r: u8 = if reliable { RELIABLE_BIT } else { 0u8 };
    let s: u8 = if peers == Peers::Server { SERVER_PEER_BIT } else { 0u8 };
    lemma_mask_bits(r, s);
    lemma_id_bytes(id as u32);
    let b = encode_header(h);
    assert(b.subrange(1, 4) =~= id_to_bytes(id));
    assert(decode_header(b) == Ok::<HeaderModel, HeaderError>(h));
    assert(0x80u8 & 0x80u8 != 0u8) by (bit_vector);
}

/// A first header byte with the control bit and any other bit set is
/// rejected as invalid.
pub proof fn lemma_header_malformed(b: Seq<u8>)
    requires
        b.len() >= HEADER_SIZE,
        b[0] & CONTROL_BIT != 0,
        b[0] & !CONTROL_BIT != 0,
    ensures
        decode_header(b) == Err::<HeaderModel, HeaderError>(HeaderError::Invalid),
{
    let m = b[0];
    assert(m & 0x7fu8 != 0u8 ==> m != 0x80u8) by (bit_vector);
    assert(!0x80u8 == 0x7fu8) by (bit_vector);
}

/// The relative order of IDs: equal only to itself, antisymmetric, numeric
/// for IDs less than half the ID space apart and inverted for IDs further
/// apart, which were wrapped around.
pub proof fn lemma_ordering(a: PackageId, b: PackageId)
    ensures
        id_order(a@, a@) == core::cmp::Ordering::Equal,
        id_order(a@, b@) == core::cmp::Ordering::Equal <==> a@ == b@,
        id_order(a@, b@) == core::cmp::Ordering::Less <==> id_order(b@, a@)
            == core::cmp::Ordering::Greater,
        a@ < b@ && b@ - a@ < half_space() ==> id_order(a@, b@) == core::cmp::Ordering::Less,
        a@ < b@ && b@ - a@ >= half_space() ==> id_order(a@, b@) == core::cmp::Ordering::Greater,
        a@ > b@ && a@ - b@ >= half_space() ==> id_order(a@, b@) == core::cmp::Ordering::Less,
{
}

proof fn lemma_advance_closed_form(start: nat, i: nat)
    requires
        start <= MAX_ID,
        i < id_space(),
    ensures
        advance_id(start, i) == wrapped_sum(start, i),
    decreases i,
{
    if i > 0 {
        lemma_advance_closed_form(start, (i - 1) as nat);
    }
}

proof fn lemma_range_state(st: RangeModel, i: nat)
    requires
        forall|j: nat| j < i ==> st.1 != Some(#[trigger] advance_id(st.0, j)),
    ensures
        range_after(st, i) == (advance_id(st.0, i), st.1),
    decreases i,
{
    if i > 0 {
        lemma_range_state(st, (i - 1) as nat);
    }
}

/// A bounded range yields, step after step, exactly the IDs from `start`
/// (inclusive) to `stop` (exclusive), each the successor of the one before,
/// wrapping around after the largest ID, and then ends.
pub proof fn lemma_range_yields(start: nat, stop: nat)
    requires
        start <= MAX_ID,
        stop <= MAX_ID,
    ensures
        forall|i: nat|
            i < id_distance(start, stop) ==> range_yield(#[trigger] range_after((start, Some(stop)), i))
                == Some(advance_id(start, i)),
        forall|i: nat|
            i < id_distance(start, stop) ==> #[trigger] advance_id(start, i) == wrapped_sum(start, i),
        range_yield(range_after((start, Some(stop)), id_distance(start, stop))) is None,
{
    let n = id_distance(start, stop);
    let st: RangeModel = (start, Some(stop));
    assert forall|i: nat| i <= n implies #[trigger] advance_id(start, i) == wrapped_sum(start, i) by {
        lemma_advance_closed_form(start, i);
    }
    assert forall|i: nat| i <= n implies range_after(st, i) == (advance_id(start, i), Some(stop)) by {
        assert forall|j: nat| j < i implies st.1 != Some(#[trigger] advance_id(st.0, j)) by {
            assert(advance_id(start, j) == wrapped_sum(start, j));
        }
        lemma_range_state(st, i);
    }
    assert forall|i: nat| i < n implies range_yield(#[trigger] range_after(st, i)) == Some(
        advance_id(start, i),
    ) by {
        assert(range_after(st, i) == (advance_id(start, i), Some(stop)));
        assert(advance_id(start, i) == wrapped_sum(start, i));
    }
    assert(range_after(st, n) == (advance_id(start, n), Some(stop)));
}

/// An unbounded counter never ends: its `n`-th yield is `start` incremented
/// `n` times.
pub proof fn lemma_counter_yields(start: nat, n: nat)
    ensures
        range_yield(range_after((start, None), n)) == Some(advance_id(start, n)),
{
    lemma_range_state((start, None), n);
}

} // verus!
