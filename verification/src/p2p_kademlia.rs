//! Overlay identifiers, the XOR metric and the routing table.

use sha2::{Digest, Sha256};
use vstd::prelude::*;
use vstd::std_specs::cmp::PartialEqSpecImpl;

verus! {

/// Largest number of peers one bucket keeps.
pub const K_BUCKET_SIZE: usize = 20;

/// Length of an overlay identifier in bytes.
pub const ID_SIZE: usize = 32;

/// Number of buckets of a routing table: one per bit of an identifier.
pub const BUCKET_COUNT: usize = 256;

/// Byte-wise XOR of two identifiers, as sequences of `ID_SIZE` bytes.
pub open spec fn xor_distance(a: Seq<u8>, b: Seq<u8>) -> Seq<u8> {
    Seq::new(ID_SIZE as nat, |i: int| a[i] ^ b[i])
}

/// Number of zero bits before the first set bit of `s`, reading each byte
/// from its most significant bit; `8 * s.len()` when no bit is set.
pub open spec fn leading_zero_bits(s: Seq<u8>) -> nat
    decreases s.len(),
{
    if s.len() == 0 {
        0
    } else if s[0] == 0 {
        8 + leading_zero_bits(s.drop_first())
    } else {
        u8::leading_zeros(s[0]) as nat
    }
}

/// The SHA-256 digest of `data`.
pub uninterp spec fn sha256(data: Seq<u8>) -> Seq<u8>;

/// Hashes `data` with `sha2::Sha256`: a fresh hasher, one `update` with all
/// of `data`, then `finalize`. The result is the 32-byte digest, which
/// depends on `data` alone.
#[verifier::external_body]
fn sha256_digest(data: &[u8]) -> (digest: [u8; ID_SIZE])
    ensures
        digest@ == sha256(data@),
{
    let mut hasher = Sha256::new();
    hasher.update(data);
    let result = hasher.finalize();
    let mut bytes = [0u8; ID_SIZE];
    bytes.copy_from_slice(&result);
    bytes
}

/// The ASCII code of the lower-case hexadecimal digit for `nibble`.
pub open spec fn hex_digit(nibble: u8) -> u8 {
    if nibble < 10 {
        (48 + nibble) as u8
    } else {
        (87 + nibble) as u8
    }
}

/// The lower-case hexadecimal digit for a number below sixteen.
pub fn to_hex_digit(nibble: u8) -> (digit: u8)
    requires
        nibble < 16,
    ensures
        digit == hex_digit(nibble),
{
    if nibble < 10 {
        48 + nibble
    } else {
        87 + nibble
    }
}

/// A 32-byte overlay identifier.
#[derive(Clone, Copy, Debug, Hash, Eq, PartialOrd, Ord)]
pub struct NodeId(pub [u8; ID_SIZE]);

impl View for NodeId {
    type V = Seq<u8>;

    open spec fn view(&self) -> Seq<u8> {
        self.0@
    }
}

impl PartialEq for NodeId {
    fn eq(&self, other: &Self) -> (r: bool) {
        let mut i: usize = 0;
        while i < ID_SIZE
            invariant
                i <= ID_SIZE,
                forall|j: int| 0 <= j < i ==> self@[j] == other@[j],
            decreases ID_SIZE - i,
        {
            if self.0[i] != other.0[i] {
                return false;
            }
            i += 1;
        }
        assert(self@ =~= other@);
        true
    }
}

impl PartialEqSpecImpl for NodeId {
    open spec fn obeys_eq_spec() -> bool {
        true
    }

    open spec fn eq_spec(&self, other: &Self) -> bool {
        self@ == other@
    }
}

impl NodeId {
    /// Wraps the given bytes.
    pub fn new(bytes: [u8; ID_SIZE]) -> (id: Self)
        ensures
            id.0 == bytes,
            id@ == bytes@,
    {
        NodeId(bytes)
    }

    /// The identifier of the peer whose encoded identity is `data`: its
    /// SHA-256 digest.
    pub fn from_data(data: &[u8]) -> (id: Self)
        ensures
            id@ == sha256(data@),
    {
        NodeId::new(sha256_digest(data))
    }

    /// The XOR distance between two identifiers.
    pub fn distance(&self, other: &NodeId) -> (d: NodeId)
        ensures
            d@ == xor_distance(self@, other@),
    {
        let mut res = [0u8; ID_SIZE];
        let mut i: usize = 0;
        while i < ID_SIZE
            invariant
                i <= ID_SIZE,
                forall|j: int| 0 <= j < i ==> res@[j] == self@[j] ^ other@[j],
            decreases ID_SIZE - i,
        {
            res[i] = self.0[i] ^ other.0[i];
            i += 1;
        }
        assert(res@ =~= xor_distance(self@, other@));
        NodeId(res)
    }

    /// The number of leading zero bits of the identifier.
    pub fn leading_zeros(&self) -> (zeros: u32)
        ensures
            zeros == leading_zero_bits(self@),
            zeros <= 8 * ID_SIZE,
    {
        let mut zeros: u32 = 0;
        let mut i: usize = 0;
        assert(self@.skip(0) =~= self@);
        while i < ID_SIZE
            invariant
                i <= ID_SIZE,
                zeros == 8 * i,
                leading_zero_bits(self@) == zeros + leading_zero_bits(self@.skip(i as int)),
            decreases ID_SIZE - i,
        {
            let byte = self.0[i];
            proof {
                let rest = self@.skip(i as int);
                assert(rest[0] == byte);
                assert(rest.drop_first() =~= self@.skip(i + 1));
                vstd::std_specs::bits::axiom_u8_leading_zeros(byte);
            }
            if byte == 0 {
                zeros += 8;
            } else {
                zeros += byte.leading_zeros();
                return zeros;
            }
            i += 1;
        }
        zeros
    }

    /// The first four bytes in lower-case hexadecimal, for a short name in
    /// logs.
    pub fn hex_prefix(&self) -> (text: [u8; 8])
        ensures
            forall|i: int|
                0 <= i < 4 ==> text@[2 * i] == hex_digit(self@[i] / 16) && text@[2 * i + 1]
                    == hex_digit(self@[i] % 16),
    {
        let mut text = [0u8; 8];
        let mut i: usize = 0;
        while i < 4
            invariant
                i <= 4,
                forall|j: int|
                    0 <= j < i ==> text@[2 * j] == hex_digit(self@[j] / 16) && text@[2 * j + 1]
                        == hex_digit(self@[j] % 16),
            decreases 4 - i,
        {
            let byte = self.0[i];
            text[2 * i] = to_hex_digit(byte / 16);
            text[2 * i + 1] = to_hex_digit(byte % 16);
            i += 1;
        }
        text
    }

    /// Whether the two identifiers hold the same bytes.
    pub fn same(&self, other: &NodeId) -> (b: bool)
        ensures
            b == (self@ == other@),
    {
        let b = *self == *other;
        b
    }

    /// Whether every byte of the identifier is zero.
    pub fn is_zero(&self) -> (b: bool)
        ensures
            b == (forall|j: int| 0 <= j < ID_SIZE ==> self@[j] == 0),
    {
        let mut i: usize = 0;
        while i < ID_SIZE
            invariant
                i <= ID_SIZE,
                forall|j: int| 0 <= j < i ==> self@[j] == 0,
            decreases ID_SIZE - i,
        {
            if self.0[i] != 0 {
                assert(self@[i as int] != 0);
                return false;
            }
            i += 1;
        }
        true
    }
}

/// What is known of a peer: its overlay identifier and its printable name.
#[derive(Clone, Debug)]
pub struct PeerInfo {
    /// The overlay identifier of the peer.
    pub node_id: NodeId,
    /// The printable name of the peer.
    pub peer_id_str: String,
}

impl PeerInfo {
    /// A copy of the entry.
    pub fn duplicate(&self) -> (copy: PeerInfo)
        ensures
            copy == *self,
    {
        PeerInfo { node_id: self.node_id, peer_id_str: self.peer_id_str.clone() }
    }
}

/// Index of the first entry of `peers` whose identifier is `id`;
/// `peers.len()` when there is none.
pub open spec fn first_match(peers: Seq<PeerInfo>, id: Seq<u8>) -> int
    decreases peers.len(),
{
    if peers.len() == 0 {
        0
    } else if peers[0].node_id@ == id {
        0
    } else {
        1 + first_match(peers.drop_first(), id)
    }
}

/// `first_match` is the least index that holds `id`, or the length.
pub proof fn lemma_first_match(peers: Seq<PeerInfo>, id: Seq<u8>)
    ensures
        0 <= first_match(peers, id) <= peers.len(),
        first_match(peers, id) < peers.len() ==> peers[first_match(peers, id)].node_id@ == id,
        forall|j: int| 0 <= j < first_match(peers, id) ==> peers[j].node_id@ != id,
    decreases peers.len(),
{
    if peers.len() > 0 && peers[0].node_id@ != id {
        let rest = peers.drop_first();
        lemma_first_match(rest, id);
        assert forall|j: int| 0 <= j < first_match(peers, id) implies peers[j].node_id@ != id by {
            if j > 0 {
                assert(peers[j] == rest[j - 1]);
            }
        }
    }
}

/// An index that holds `id` with no earlier one that does is `first_match`.
pub proof fn lemma_first_match_is(peers: Seq<PeerInfo>, id: Seq<u8>, i: int)
    requires
        0 <= i <= peers.len(),
        forall|j: int| 0 <= j < i ==> peers[j].node_id@ != id,
        i < peers.len() ==> peers[i].node_id@ == id,
    ensures
        first_match(peers, id) == i,
{
    lemma_first_match(peers, id);
    let f = first_match(peers, id);
    if f < i {
        assert(peers[f].node_id@ == id);
    }
}

/// No two entries of `peers` share an identifier.
pub open spec fn distinct_ids(peers: Seq<PeerInfo>) -> bool {
    forall|i: int, j: int|
        0 <= i < j < peers.len() ==> peers[i].node_id@ != peers[j].node_id@
}

/// The entries of a bucket after `peer` was offered to it: a known
/// identifier moves to the tail with the new entry in its place, an unknown
/// one is appended while there is room, and a full bucket stays as it is.
pub open spec fn bucket_after_add(peers: Seq<PeerInfo>, peer: PeerInfo) -> Seq<PeerInfo> {
    let idx = first_match(peers, peer.node_id@);
    if idx < peers.len() {
        peers.remove(idx).push(peer)
    } else if peers.len() < K_BUCKET_SIZE {
        peers.push(peer)
    } else {
        peers
    }
}

/// Whether a bucket holding `peers` takes `peer`.
pub open spec fn bucket_accepts(peers: Seq<PeerInfo>, peer: PeerInfo) -> bool {
    first_match(peers, peer.node_id@) < peers.len() || peers.len() < K_BUCKET_SIZE
}

/// Up to `K_BUCKET_SIZE` peers, from least to most recently seen.
pub struct KBucket {
    /// The peers, the one seen last at the end.
    pub peers: Vec<PeerInfo>,
}

impl View for KBucket {
    type V = Seq<PeerInfo>;

    open spec fn view(&self) -> Seq<PeerInfo> {
        self.peers@
    }
}

impl KBucket {
    /// The bucket is within its capacity and names no peer twice.
    pub open spec fn wf(&self) -> bool {
        &&& self@.len() <= K_BUCKET_SIZE
        &&& distinct_ids(self@)
    }

    /// An empty bucket.
    pub fn new() -> (bucket: Self)
        ensures
            bucket@ == Seq::<PeerInfo>::empty(),
            bucket.wf(),
    {
        KBucket { peers: Vec::with_capacity(K_BUCKET_SIZE) }
    }

    /// Offers `peer` to the bucket and reports whether it was taken.
    pub fn add(&mut self, peer: PeerInfo) -> (accepted: bool)
        ensures
            final(self)@ == bucket_after_add(old(self)@, peer),
            accepted == bucket_accepts(old(self)@, peer),
            old(self).wf() ==> final(self).wf(),
    {
        let ghost before = self.peers@;
        let n = self.peers.len();
        let mut idx: usize = 0;
        while idx < n
            invariant
                idx <= n,
                n == self.peers@.len(),
                self.peers@ == before,
                forall|j: int| 0 <= j < idx ==> before[j].node_id@ != peer.node_id@,
            ensures
                idx < n ==> before[idx as int].node_id@ == peer.node_id@,
            decreases n - idx,
        {
            if self.peers[idx].node_id == peer.node_id {
                break;
            }
            idx += 1;
        }
        proof {
            lemma_first_match_is(before, peer.node_id@, idx as int);
        }
        if idx < n {
            self.peers.remove(idx);
            self.peers.push(peer);
            proof {
                if distinct_ids(before) {
                    lemma_add_keeps_distinct(before, peer);
                }
            }
            true
        } else if n < K_BUCKET_SIZE {
            self.peers.push(peer);
            proof {
                if distinct_ids(before) {
                    lemma_add_keeps_distinct(before, peer);
                }
            }
            true
        } else {
            false
        }
    }
}

/// Offering a peer to a bucket without repeated identifiers leaves it so,
/// and never grows it beyond one more entry.
pub proof fn lemma_add_keeps_distinct(peers: Seq<PeerInfo>, peer: PeerInfo)
    requires
        distinct_ids(peers),
    ensures
        distinct_ids(bucket_after_add(peers, peer)),
        first_match(peers, peer.node_id@) < peers.len() ==> bucket_after_add(peers, peer).len()
            == peers.len(),
{
    lemma_first_match(peers, peer.node_id@);
    let idx = first_match(peers, peer.node_id@);
    let after = bucket_after_add(peers, peer);
    if idx < peers.len() {
        let cut = peers.remove(idx);
        assert forall|i: int, j: int| 0 <= i < j < after.len() implies after[i].node_id@
            != after[j].node_id@ by {
            let oi = if i < idx { i } else { i + 1 };
            assert(after[i] == peers[oi]);
            if j < cut.len() {
                let oj = if j < idx { j } else { j + 1 };
                assert(after[j] == peers[oj]);
            } else {
                assert(after[j] == peer);
                assert(peers[idx].node_id@ == peer.node_id@);
            }
        }
    } else if peers.len() < K_BUCKET_SIZE {
        assert forall|i: int, j: int| 0 <= i < j < after.len() implies after[i].node_id@
            != after[j].node_id@ by {
            assert(after[i] == peers[i]);
            if j < peers.len() {
                assert(after[j] == peers[j]);
            }
        }
    }
}

/// The entries of a bucket after the peers `offered` were offered to it one
/// after the other.
pub open spec fn bucket_after_all(peers: Seq<PeerInfo>, offered: Seq<PeerInfo>) -> Seq<PeerInfo>
    decreases offered.len(),
{
    if offered.len() == 0 {
        peers
    } else {
        bucket_after_add(bucket_after_all(peers, offered.drop_last()), offered.last())
    }
}

/// How many of `n` peers with different identifiers an empty bucket keeps.
pub open spec fn kept_of(n: nat) -> nat {
    if n <= K_BUCKET_SIZE {
        n
    } else {
        K_BUCKET_SIZE as nat
    }
}

/// An empty bucket that is offered peers with different identifiers keeps
/// the first `K_BUCKET_SIZE` of them in the order of their arrival, and turns
/// every later one away.
pub proof fn lemma_bucket_overflow(offered: Seq<PeerInfo>)
    requires
        distinct_ids(offered),
    ensures
        bucket_after_all(Seq::empty(), offered) == offered.take(kept_of(offered.len()) as int),
        forall|k: int|
            0 <= k < offered.len() ==> (bucket_accepts(
                #[trigger] bucket_after_all(Seq::empty(), offered.take(k)),
                offered[k],
            ) <==> k < K_BUCKET_SIZE),
    decreases offered.len(),
{
    if offered.len() == 0 {
        assert(offered.take(0) =~= Seq::<PeerInfo>::empty());
    } else {
        let n = offered.len() as int;
        let earlier = offered.drop_last();
        let last = offered.last();
        assert forall|i: int, j: int| 0 <= i < j < earlier.len() implies earlier[i].node_id@
            != earlier[j].node_id@ by {
            assert(earlier[i] == offered[i] && earlier[j] == offered[j]);
        }
        lemma_bucket_overflow(earlier);
        let kept = earlier.take(kept_of(earlier.len()) as int);
        assert(bucket_after_all(Seq::empty(), earlier) == kept);
        // The newcomer is not among those kept.
        assert forall|j: int| 0 <= j < kept.len() implies kept[j].node_id@ != last.node_id@ by {
            assert(kept[j] == offered[j]);
            assert(last == offered[n - 1]);
        }
        lemma_first_match_is(kept, last.node_id@, kept.len() as int);
        assert(bucket_after_add(kept, last) =~= offered.take(kept_of(offered.len()) as int));
        assert forall|k: int| 0 <= k < offered.len() implies (bucket_accepts(
            #[trigger] bucket_after_all(Seq::empty(), offered.take(k)),
            offered[k],
        ) <==> k < K_BUCKET_SIZE) by {
            if k < n - 1 {
                assert(offered.take(k) =~= earlier.take(k));
                assert(offered[k] == earlier[k]);
            } else {
                assert(offered.take(k) =~= earlier);
            }
        }
    }
}

/// Whether `a` comes before `b` when the bytes from index `i` on are
/// compared from left to right.
pub open spec fn less_from(a: Seq<u8>, b: Seq<u8>, i: int) -> bool
    decreases ID_SIZE - i,
{
    if i < 0 || i >= ID_SIZE {
        false
    } else if a[i] != b[i] {
        a[i] < b[i]
    } else {
        less_from(a, b, i + 1)
    }
}

/// Whether identifier `a` is smaller than `b`, both read as 256-bit
/// big-endian numbers.
pub open spec fn id_less(a: Seq<u8>, b: Seq<u8>) -> bool {
    less_from(a, b, 0)
}

/// `a` comes before `b` exactly when they first differ at a byte that is
/// smaller in `a`.
pub proof fn lemma_less_from(a: Seq<u8>, b: Seq<u8>, i: int)
    requires
        0 <= i <= ID_SIZE,
    ensures
        less_from(a, b, i) <==> exists|k: int|
            i <= k < ID_SIZE && a[k] < b[k] && forall|j: int| i <= j < k ==> a[j] == b[j],
    decreases ID_SIZE - i,
{
    if i < ID_SIZE {
        lemma_less_from(a, b, i + 1);
        if a[i] != b[i] {
            if a[i] < b[i] {
                assert(i <= i < ID_SIZE && a[i] < b[i] && forall|j: int|
                    i <= j < i ==> a[j] == b[j]);
            } else {
                assert forall|k: int|
                    i <= k < ID_SIZE && a[k] < b[k] implies !(forall|j: int|
                    i <= j < k ==> a[j] == b[j]) by {
                    if k > i {
                        assert(!(a[i] == b[i]));
                    }
                }
            }
        } else {
            if less_from(a, b, i + 1) {
                let k = choose|k: int|
                    i + 1 <= k < ID_SIZE && a[k] < b[k] && forall|j: int|
                        i + 1 <= j < k ==> a[j] == b[j];
                assert(i <= k < ID_SIZE && a[k] < b[k] && forall|j: int|
                    i <= j < k ==> a[j] == b[j]);
            } else {
                assert forall|k: int|
                    i <= k < ID_SIZE && a[k] < b[k] implies !(forall|j: int|
                    i <= j < k ==> a[j] == b[j]) by {
                    if forall|j: int| i <= j < k ==> a[j] == b[j] {
                        assert(i + 1 <= k < ID_SIZE && a[k] < b[k] && forall|j: int|
                            i + 1 <= j < k ==> a[j] == b[j]);
                    }
                }
            }
        }
    }
}

/// The order is asymmetric.
pub proof fn lemma_less_asymmetric(a: Seq<u8>, b: Seq<u8>, i: int)
    requires
        0 <= i <= ID_SIZE,
        less_from(a, b, i),
    ensures
        !less_from(b, a, i),
    decreases ID_SIZE - i,
{
    if i < ID_SIZE && a[i] == b[i] {
        lemma_less_asymmetric(a, b, i + 1);
    }
}

/// "Not after" is transitive.
pub proof fn lemma_not_after_transitive(a: Seq<u8>, b: Seq<u8>, c: Seq<u8>, i: int)
    requires
        0 <= i <= ID_SIZE,
        !less_from(b, a, i),
        !less_from(c, b, i),
    ensures
        !less_from(c, a, i),
    decreases ID_SIZE - i,
{
    if i < ID_SIZE && a[i] == b[i] && b[i] == c[i] {
        lemma_not_after_transitive(a, b, c, i + 1);
    }
}

/// Two identifiers of which neither comes before the other agree from
/// index `i` on.
pub proof fn lemma_less_total(a: Seq<u8>, b: Seq<u8>, i: int)
    requires
        0 <= i <= ID_SIZE,
        !less_from(a, b, i),
        !less_from(b, a, i),
    ensures
        forall|j: int| i <= j < ID_SIZE ==> a[j] == b[j],
    decreases ID_SIZE - i,
{
    if i < ID_SIZE {
        lemma_less_total(a, b, i + 1);
    }
}

impl NodeId {
    /// Whether this identifier is smaller than `other`, both read as
    /// 256-bit big-endian numbers.
    pub fn less_than(&self, other: &NodeId) -> (b: bool)
        ensures
            b == id_less(self@, other@),
    {
        let mut i: usize = 0;
        while i < ID_SIZE
            invariant
                i <= ID_SIZE,
                id_less(self@, other@) == less_from(self@, other@, i as int),
            decreases ID_SIZE - i,
        {
            if self.0[i] != other.0[i] {
                return self.0[i] < other.0[i];
            }
            i += 1;
        }
        false
    }
}

/// Whether all `ID_SIZE` bytes of `d` are zero.
pub open spec fn is_zero_id(d: Seq<u8>) -> bool {
    forall|j: int| 0 <= j < ID_SIZE ==> d[j] == 0
}

/// The bucket that a peer at XOR distance `d` belongs to, in a table of
/// `buckets` buckets: the first one for distance zero, else the one
/// numbered by the leading zero bits of `d`, capped at the last.
pub open spec fn bucket_index_of(d: Seq<u8>, buckets: int) -> int {
    if is_zero_id(d) {
        0
    } else if leading_zero_bits(d) >= buckets {
        buckets - 1
    } else {
        leading_zero_bits(d) as int
    }
}

/// Number of peers held by `buckets` together.
pub open spec fn peer_count(buckets: Seq<KBucket>) -> nat
    decreases buckets.len(),
{
    if buckets.len() == 0 {
        0
    } else {
        peer_count(buckets.drop_last()) + buckets.last()@.len()
    }
}

/// Whether place `c1` (bucket, slot) comes before place `c2`.
pub open spec fn place_before(c1: (int, int), c2: (int, int)) -> bool {
    c1.0 < c2.0 || (c1.0 == c2.0 && c1.1 < c2.1)
}

/// The local identifier and one bucket per possible number of leading zero
/// bits of the distance to it.
pub struct RoutingTable {
    /// The identifier of the node that owns the table.
    pub local_id: NodeId,
    /// The buckets, by the number of leading zero bits of the distance.
    pub buckets: Vec<KBucket>,
}

/// Whether `after` is the table `before` once `peer` was offered to it: the
/// bucket that the peer's distance to the local identifier selects took the
/// offer, and nothing else changed.
pub open spec fn peer_recorded(before: RoutingTable, after: RoutingTable, peer: PeerInfo) -> bool {
    let b = bucket_index_of(xor_distance(before.local_id@, peer.node_id@), BUCKET_COUNT as int);
    &&& after.local_id == before.local_id
    &&& after.buckets@.len() == before.buckets@.len()
    &&& 0 <= b < BUCKET_COUNT
    &&& after.buckets@[b]@ == bucket_after_add(before.buckets@[b]@, peer)
    &&& forall|k: int|
        0 <= k < BUCKET_COUNT && k != b ==> after.buckets@[k] == before.buckets@[k]
}

impl RoutingTable {
    /// The table has all its buckets, each bucket is well-formed, and each
    /// peer sits in the bucket that its distance to the local identifier
    /// selects.
    pub open spec fn wf(&self) -> bool {
        &&& self.buckets@.len() == BUCKET_COUNT
        &&& forall|b: int| 0 <= b < self.buckets@.len() ==> (#[trigger] self.buckets@[b]).wf()
        &&& forall|b: int, i: int|
            0 <= b < self.buckets@.len() && 0 <= i < self.buckets@[b]@.len() ==> bucket_index_of(
                xor_distance(self.local_id@, (#[trigger] self.buckets@[b]@[i]).node_id@),
                BUCKET_COUNT as int,
            ) == b
    }

    /// Whether `c` names a slot that holds a peer.
    pub open spec fn is_place(&self, c: (int, int)) -> bool {
        0 <= c.0 < self.buckets@.len() && 0 <= c.1 < self.buckets@[c.0]@.len()
    }

    /// The peer at place `c`.
    pub open spec fn peer_at(&self, c: (int, int)) -> PeerInfo {
        self.buckets@[c.0]@[c.1]
    }

    /// Whether the peer at `c1` ranks before the one at `c2` by distance to
    /// `target`; of two at the same distance the earlier place ranks first.
    pub open spec fn ranks_before(&self, c1: (int, int), c2: (int, int), target: Seq<u8>) -> bool {
        let d1 = xor_distance(self.peer_at(c1).node_id@, target);
        let d2 = xor_distance(self.peer_at(c2).node_id@, target);
        id_less(d1, d2) || (!id_less(d2, d1) && place_before(c1, c2))
    }

    /// Whether `order` lists every place of the table once, by ascending
    /// distance to `target`.
    pub open spec fn is_ranking(&self, order: Seq<(int, int)>, target: Seq<u8>) -> bool {
        &&& order.len() == peer_count(self.buckets@)
        &&& forall|k: int| 0 <= k < order.len() ==> self.is_place(#[trigger] order[k])
        &&& forall|k1: int, k2: int|
            0 <= k1 < k2 < order.len() ==> self.ranks_before(
                #[trigger] order[k1],
                #[trigger] order[k2],
                target,
            )
    }

    /// A table for `local_id` with `BUCKET_COUNT` empty buckets.
    pub fn new(local_id: NodeId) -> (table: Self)
        ensures
            table.local_id == local_id,
            table.buckets@.len() == BUCKET_COUNT,
            forall|b: int| 0 <= b < BUCKET_COUNT ==> (#[trigger] table.buckets@[b])@.len() == 0,
            table.wf(),
    {
        let mut buckets: Vec<KBucket> = Vec::with_capacity(BUCKET_COUNT);
        let mut n: usize = 0;
        while n < BUCKET_COUNT
            invariant
                n <= BUCKET_COUNT,
                buckets@.len() == n,
                forall|b: int| 0 <= b < n ==> (#[trigger] buckets@[b])@.len() == 0,
            decreases BUCKET_COUNT - n,
        {
            buckets.push(KBucket::new());
            n += 1;
        }
        RoutingTable { local_id, buckets }
    }

    /// The index of the bucket for a peer at XOR distance `distance`.
    pub fn get_bucket_index(&self, distance: &NodeId) -> (index: usize)
        requires
            self.buckets@.len() > 0,
        ensures
            index == bucket_index_of(distance@, self.buckets@.len() as int),
            index < self.buckets@.len(),
    {
        if distance.is_zero() {
            return 0;
        }
        let zeros = distance.leading_zeros() as usize;
        if zeros >= self.buckets.len() {
            self.buckets.len() - 1
        } else {
            zeros
        }
    }

    /// Records `peer` in the bucket that its distance to the local
    /// identifier selects; a full bucket drops it.
    pub fn add_peer(&mut self, peer: PeerInfo)
        requires
            old(self).wf(),
        ensures
            final(self).wf(),
            peer_recorded(*old(self), *final(self), peer),
    {
        let dist = self.local_id.distance(&peer.node_id);
        let bucket_idx = self.get_bucket_index(&dist);
        let ghost before = self.buckets@[bucket_idx as int]@;
        self.buckets[bucket_idx].add(peer);
        proof {
            let after = self.buckets@[bucket_idx as int]@;
            lemma_first_match(before, peer.node_id@);
            assert forall|b: int, i: int|
                0 <= b < self.buckets@.len() && 0 <= i < self.buckets@[b]@.len() implies bucket_index_of(
                xor_distance(self.local_id@, (#[trigger] self.buckets@[b]@[i]).node_id@),
                BUCKET_COUNT as int,
            ) == b by {
                if b == bucket_idx {
                    let idx = first_match(before, peer.node_id@);
                    if idx < before.len() {
                        if i < before.len() - 1 {
                            let oi = if i < idx { i } else { i + 1 };
                            assert(after[i] == before[oi]);
                            assert(old(self).buckets@[b]@[oi] == before[oi]);
                        }
                    } else if before.len() < K_BUCKET_SIZE {
                        if i < before.len() {
                            assert(after[i] == before[i]);
                            assert(old(self).buckets@[b]@[i] == before[i]);
                        }
                    } else {
                        assert(old(self).buckets@[b]@[i] == before[i]);
                    }
                } else {
                    assert(self.buckets@[b] == old(self).buckets@[b]);
                }
            }
        }
    }
}

/// Adding a bucket adds its peers to the count.
proof fn lemma_peer_count_step(buckets: Seq<KBucket>, b: int)
    requires
        0 <= b < buckets.len(),
    ensures
        peer_count(buckets.take(b + 1)) == peer_count(buckets.take(b)) + buckets[b]@.len(),
{
    let next = buckets.take(b + 1);
    assert(next.drop_last() =~= buckets.take(b));
    assert(next.last() == buckets[b]);
}

impl RoutingTable {
    /// The `count` peers of the table nearest to `target` by XOR distance,
    /// nearest first; all of them when the table holds fewer.
    pub fn find_closest(&self, target: &NodeId, count: usize) -> (closest: Vec<PeerInfo>)
        ensures
            exists|order: Seq<(int, int)>|
                {
                    &&& self.is_ranking(order, target@)
                    &&& closest@.len() == if count <= order.len() {
                        count as int
                    } else {
                        order.len() as int
                    }
                    &&& forall|k: int|
                        0 <= k < closest@.len() ==> closest@[k] == self.peer_at(#[trigger] order[k])
                },
    {
        let mut closest: Vec<PeerInfo> = Vec::new();
        let ghost mut order: Seq<(int, int)> = Seq::empty();
        let mut b: usize = 0;
        assert(self.buckets@.take(0) =~= Seq::<KBucket>::empty());
        while b < self.buckets.len()
            invariant
                b <= self.buckets@.len(),
                order.len() == peer_count(self.buckets@.take(b as int)),
                closest@.len() == order.len(),
                forall|k: int|
                    0 <= k < order.len() ==> self.is_place(#[trigger] order[k]) && order[k].0 < b
                        && closest@[k] == self.peer_at(order[k]),
                forall|k1: int, k2: int|
                    0 <= k1 < k2 < order.len() ==> self.ranks_before(
                        #[trigger] order[k1],
                        #[trigger] order[k2],
                        target@,
                    ),
            decreases self.buckets@.len() - b,
        {
            let bucket = &self.buckets[b];
            let mut i: usize = 0;
            while i < bucket.peers.len()
                invariant
                    b < self.buckets@.len(),
                    *bucket == self.buckets@[b as int],
                    i <= bucket@.len(),
                    order.len() == peer_count(self.buckets@.take(b as int)) + i,
                    closest@.len() == order.len(),
                    forall|k: int|
                        0 <= k < order.len() ==> self.is_place(#[trigger] order[k]) && place_before(
                            order[k],
                            (b as int, i as int),
                        ) && closest@[k] == self.peer_at(order[k]),
                    forall|k1: int, k2: int|
                        0 <= k1 < k2 < order.len() ==> self.ranks_before(
                            #[trigger] order[k1],
                            #[trigger] order[k2],
                            target@,
                        ),
                decreases bucket@.len() - i,
            {
                let peer = &bucket.peers[i];
                let dist = peer.node_id.distance(target);
                let ghost here = (b as int, i as int);
                let mut pos: usize = closest.len();
                while pos > 0
                    invariant
                        pos <= closest@.len(),
                        closest@.len() == order.len(),
                        dist@ == xor_distance(self.peer_at(here).node_id@, target@),
                        forall|k: int|
                            0 <= k < order.len() ==> closest@[k] == self.peer_at(
                                #[trigger] order[k],
                            ),
                        forall|k: int|
                            pos <= k < order.len() ==> id_less(
                                dist@,
                                xor_distance(self.peer_at(#[trigger] order[k]).node_id@, target@),
                            ),
                    ensures
                        pos > 0 ==> !id_less(
                            dist@,
                            xor_distance(self.peer_at(order[pos - 1]).node_id@, target@),
                        ),
                    decreases pos,
                {
                    let other = closest[pos - 1].node_id.distance(target);
                    if !dist.less_than(&other) {
                        break;
                    }
                    pos -= 1;
                }
                let ghost before = order;
                closest.insert(pos, peer.duplicate());
                proof {
                    order = before.insert(pos as int, here);
                    assert forall|k1: int, k2: int|
                        0 <= k1 < k2 < order.len() implies self.ranks_before(
                        #[trigger] order[k1],
                        #[trigger] order[k2],
                        target@,
                    ) by {
                        let o1 = if k1 < pos { k1 } else { k1 - 1 };
                        let o2 = if k2 < pos { k2 } else { k2 - 1 };
                        if k1 == pos {
                            assert(order[k2] == before[o2]);
                        } else if k2 == pos {
                            assert(order[k1] == before[o1]);
                            let d1 = xor_distance(self.peer_at(before[o1]).node_id@, target@);
                            let dp = xor_distance(
                                self.peer_at(before[pos - 1]).node_id@,
                                target@,
                            );
                            if o1 < pos - 1 {
                                assert(self.ranks_before(before[o1], before[pos - 1], target@));
                                if id_less(d1, dp) {
                                    lemma_less_asymmetric(d1, dp, 0);
                                }
                                lemma_not_after_transitive(d1, dp, dist@, 0);
                            }
                        } else {
                            assert(order[k1] == before[o1]);
                            assert(order[k2] == before[o2]);
                        }
                    }
                    assert forall|k: int| 0 <= k < order.len() implies self.is_place(
                        #[trigger] order[k],
                    ) && place_before(order[k], (b as int, i + 1)) && closest@[k] == self.peer_at(
                        order[k],
                    ) by {
                        if k != pos {
                            let o = if k < pos { k } else { k - 1 };
                            assert(order[k] == before[o]);
                        }
                    }
                }
                i += 1;
            }
            proof {
                lemma_peer_count_step(self.buckets@, b as int);
            }
            b += 1;
        }
        assert(self.buckets@.take(b as int) =~= self.buckets@);
        closest.truncate(count);
        assert(self.is_ranking(order, target@));
        closest
    }
}

/// The distance between two identifiers does not depend on their order.
pub proof fn lemma_distance_symmetric(a: NodeId, b: NodeId)
    ensures
        xor_distance(a@, b@) == xor_distance(b@, a@),
{
    assert forall|j: int| 0 <= j < ID_SIZE implies a@[j] ^ b@[j] == b@[j] ^ a@[j] by {
        let x = a@[j];
        let y = b@[j];
        assert(x ^ y == y ^ x) by (bit_vector);
    }
    assert(xor_distance(a@, b@) =~= xor_distance(b@, a@));
}

/// The distance from an identifier to itself is all zero bytes.
pub proof fn lemma_distance_to_self(a: NodeId)
    ensures
        xor_distance(a@, a@) == Seq::new(ID_SIZE as nat, |i: int| 0u8),
        is_zero_id(xor_distance(a@, a@)),
{
    assert forall|j: int| 0 <= j < ID_SIZE implies a@[j] ^ a@[j] == 0 by {
        let x = a@[j];
        assert(x ^ x == 0) by (bit_vector);
    }
    assert(xor_distance(a@, a@) =~= Seq::new(ID_SIZE as nat, |i: int| 0u8));
}

/// Two identifiers at the same distance from a third are the same.
pub proof fn lemma_distance_injective(a: NodeId, b: NodeId, t: NodeId)
    requires
        xor_distance(a@, t@) == xor_distance(b@, t@),
    ensures
        a@ == b@,
{
    assert forall|j: int| 0 <= j < ID_SIZE implies a@[j] == b@[j] by {
        let x = a@[j];
        let y = b@[j];
        let z = t@[j];
        assert(xor_distance(a@, t@)[j] == x ^ z);
        assert(xor_distance(b@, t@)[j] == y ^ z);
        assert(x ^ z == y ^ z ==> x == y) by (bit_vector);
    }
    assert(a@ =~= b@);
}

/// The leading zero bits of `s` number at most eight per byte, and that
/// many exactly when every byte is zero.
pub proof fn lemma_leading_zero_bits(s: Seq<u8>)
    ensures
        leading_zero_bits(s) <= 8 * s.len(),
        leading_zero_bits(s) == 8 * s.len() <==> forall|j: int| 0 <= j < s.len() ==> s[j] == 0,
    decreases s.len(),
{
    if s.len() > 0 {
        let rest = s.drop_first();
        lemma_leading_zero_bits(rest);
        vstd::std_specs::bits::axiom_u8_leading_zeros(s[0]);
        if s[0] == 0 {
            if forall|j: int| 0 <= j < rest.len() ==> rest[j] == 0 {
                assert forall|j: int| 0 <= j < s.len() implies s[j] == 0 by {
                    if j > 0 {
                        assert(s[j] == rest[j - 1]);
                    }
                }
            } else {
                let j = choose|j: int| 0 <= j < rest.len() && rest[j] != 0;
                assert(s[j + 1] == rest[j]);
            }
        }
    }
}

/// Two distances with the same number of leading zero bits select the same
/// bucket.
pub proof fn lemma_bucket_determinism(d1: NodeId, d2: NodeId, buckets: int)
    requires
        leading_zero_bits(d1@) == leading_zero_bits(d2@),
    ensures
        bucket_index_of(d1@, buckets) == bucket_index_of(d2@, buckets),
{
    lemma_leading_zero_bits(d1@);
    lemma_leading_zero_bits(d2@);
}

impl RoutingTable {
    /// In a well-formed table no two places hold the same identifier.
    pub proof fn lemma_places_distinct(&self, c1: (int, int), c2: (int, int))
        requires
            self.wf(),
            self.is_place(c1),
            self.is_place(c2),
            c1 != c2,
        ensures
            self.peer_at(c1).node_id@ != self.peer_at(c2).node_id@,
    {
        if c1.0 == c2.0 {
            let bucket = self.buckets@[c1.0];
            assert(bucket.wf());
            if c1.1 < c2.1 {
                assert(bucket@[c1.1].node_id@ != bucket@[c2.1].node_id@);
            } else {
                assert(bucket@[c2.1].node_id@ != bucket@[c1.1].node_id@);
            }
        } else {
            assert(bucket_index_of(
                xor_distance(self.local_id@, self.buckets@[c1.0]@[c1.1].node_id@),
                BUCKET_COUNT as int,
            ) == c1.0);
            assert(bucket_index_of(
                xor_distance(self.local_id@, self.buckets@[c2.0]@[c2.1].node_id@),
                BUCKET_COUNT as int,
            ) == c2.0);
        }
    }

    /// In a ranking of a well-formed table the distances to the target
    /// ascend strictly: no two peers are equally far.
    pub proof fn lemma_ranking_strict(&self, order: Seq<(int, int)>, target: NodeId)
        requires
            self.wf(),
            self.is_ranking(order, target@),
        ensures
            forall|k1: int, k2: int|
                0 <= k1 < k2 < order.len() ==> id_less(
                    xor_distance(self.peer_at(#[trigger] order[k1]).node_id@, target@),
                    xor_distance(self.peer_at(#[trigger] order[k2]).node_id@, target@),
                ),
    {
        assert forall|k1: int, k2: int| 0 <= k1 < k2 < order.len() implies id_less(
            xor_distance(self.peer_at(#[trigger] order[k1]).node_id@, target@),
            xor_distance(self.peer_at(#[trigger] order[k2]).node_id@, target@),
        ) by {
            let nearer = self.peer_at(order[k1]);
            let farther = self.peer_at(order[k2]);
            let d1 = xor_distance(nearer.node_id@, target@);
            let d2 = xor_distance(farther.node_id@, target@);
            assert(self.ranks_before(order[k1], order[k2], target@));
            if !id_less(d1, d2) {
                lemma_less_total(d1, d2, 0);
                assert(d1 =~= d2);
                lemma_distance_injective(nearer.node_id, farther.node_id, target);
                self.lemma_places_distinct(order[k1], order[k2]);
            }
        }
    }
}

} // verus!
