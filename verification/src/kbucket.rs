//! Routing-table primitives: the XOR-distance comparator over identity
//! keys, the distance-class index `kbucket_index`, and the fixed-capacity,
//! distance-ordered `Bucket` of `Node` entries.

use vstd::prelude::*;

use crate::crypto_core::PublicKey;
use crate::dht::PackedNode;
use core::cmp::Ordering;

verus! {

/// How many contacts one bucket holds at most.
pub const BUCKET_DEFAULT_SIZE: usize = 8;

/// Compare the XOR distances of `a` and `b` to the pivot `own`, as the
/// unsigned big-endian magnitude of `own ^ a` versus `own ^ b`: the first
/// byte dominates, ties fall through to the next byte, and full equality is
/// `Equal`.
pub open spec fn dist_cmp(own: Seq<u8>, a: Seq<u8>, b: Seq<u8>) -> Ordering
    decreases own.len(),
{
    if own.len() == 0 || a.len() == 0 || b.len() == 0 {
        Ordering::Equal
    } else {
        let xa = own[0] ^ a[0];
        let xb = own[0] ^ b[0];
        if xa < xb {
            Ordering::Less
        } else if xb < xa {
            Ordering::Greater
        } else {
            dist_cmp(own.drop_first(), a.drop_first(), b.drop_first())
        }
    }
}

/// The opposite comparison outcome.
pub open spec fn ordering_reverse(o: Ordering) -> Ordering {
    match o {
        Ordering::Less => Ordering::Greater,
        Ordering::Equal => Ordering::Equal,
        Ordering::Greater => Ordering::Less,
    }
}

/// A key is at distance `Equal` from itself, whatever the pivot.
pub proof fn lemma_distance_reflexive(own: Seq<u8>, a: Seq<u8>)
    ensures
        dist_cmp(own, a, a) == Ordering::Equal,
    decreases own.len(),
{
    if own.len() == 0 || a.len() == 0 {
    } else {
        lemma_distance_reflexive(own.drop_first(), a.drop_first());
    }
}

/// Swapping the two compared keys reverses the comparison.
pub proof fn lemma_distance_antisymmetric(own: Seq<u8>, a: Seq<u8>, b: Seq<u8>)
    ensures
        dist_cmp(own, b, a) == ordering_reverse(dist_cmp(own, a, b)),
    decreases own.len(),
{
    if own.len() == 0 || a.len() == 0 || b.len() == 0 {
    } else {
        lemma_distance_antisymmetric(own.drop_first(), a.drop_first(), b.drop_first());
    }
}

/// The comparison is transitive in `Less`.
pub proof fn lemma_distance_transitive(own: Seq<u8>, a: Seq<u8>, b: Seq<u8>, c: Seq<u8>)
    requires
        dist_cmp(own, a, b) == Ordering::Less,
        dist_cmp(own, b, c) == Ordering::Less,
    ensures
        dist_cmp(own, a, c) == Ordering::Less,
    decreases own.len(),
{
    if own.len() == 0 || a.len() == 0 || b.len() == 0 || c.len() == 0 {
    } else {
        let xa = own[0] ^ a[0];
        let xb = own[0] ^ b[0];
        let xc = own[0] ^ c[0];
        if xa == xb && xb == xc {
            lemma_distance_transitive(
                own.drop_first(),
                a.drop_first(),
                b.drop_first(),
                c.drop_first(),
            );
        }
    }
}

/// Distance `Equal` means the keys are the same: XOR with the pivot is
/// injective.
pub proof fn lemma_distance_equal_keys(own: Seq<u8>, a: Seq<u8>, b: Seq<u8>)
    requires
        own.len() == a.len(),
        a.len() == b.len(),
        dist_cmp(own, a, b) == Ordering::Equal,
    ensures
        a == b,
    decreases own.len(),
{
    if own.len() == 0 {
        assert(a =~= b);
    } else {
        let p = own[0];
        let x = a[0];
        let y = b[0];
        assert((p ^ x) == (p ^ y));
        assert((p ^ x) == (p ^ y) ==> x == y) by (bit_vector);
        assert(dist_cmp(own.drop_first(), a.drop_first(), b.drop_first()) == Ordering::Equal);
        lemma_distance_equal_keys(own.drop_first(), a.drop_first(), b.drop_first());
        assert forall|k: int| 0 <= k < a.len() implies a[k] == b[k] by {
            if k > 0 {
                assert(a[k] == a.drop_first()[k - 1]);
                assert(b[k] == b.drop_first()[k - 1]);
            }
        }
        assert(a =~= b);
    }
}

/// Comparison of two keys' distances to the pivot `self`.
pub trait Distance {
    /// The spec-level comparison the method implements.
    spec fn distance_spec(&self, one: &PublicKey, other: &PublicKey) -> Ordering;

    /// Compare the distance of `one` to `self` against the distance of
    /// `other` to `self`.
    fn distance(&self, one: &PublicKey, other: &PublicKey) -> (r: Ordering)
        ensures
            r == self.distance_spec(one, other),
    ;
}

impl Distance for PublicKey {
    open spec fn distance_spec(&self, one: &PublicKey, other: &PublicKey) -> Ordering {
        dist_cmp(self@, one@, other@)
    }

    fn distance(&self, one: &PublicKey, other: &PublicKey) -> (r: Ordering) {
        let mut i: usize = 0;
        proof {
            assert(self@.skip(0) =~= self@);
            assert(one@.skip(0) =~= one@);
            assert(other@.skip(0) =~= other@);
        }
        while i < 32
            invariant
                i <= 32,
                dist_cmp(self@, one@, other@) == dist_cmp(
                    self@.skip(i as int),
                    one@.skip(i as int),
                    other@.skip(i as int),
                ),
            decreases 32 - i,
        {
            let xa = self.0[i] ^ one.0[i];
            let xb = self.0[i] ^ other.0[i];
            if xa < xb {
                return Ordering::Less;
            }
            if xb < xa {
                return Ordering::Greater;
            }
            proof {
                assert(self@.skip(i as int).drop_first() =~= self@.skip(i as int + 1));
                assert(one@.skip(i as int).drop_first() =~= one@.skip(i as int + 1));
                assert(other@.skip(i as int).drop_first() =~= other@.skip(i as int + 1));
            }
            i += 1;
        }
        proof {
            assert(self@.skip(32).len() == 0);
        }
        Ordering::Equal
    }
}

/// Bit `i` of a key, numbered from the most significant bit of its first
/// byte.
pub open spec fn key_bit(k: Seq<u8>, i: int) -> bool
    recommends
        0 <= i < 8 * k.len(),
{
    k[i / 8] & (0x80u8 >> ((i % 8) as u8)) != 0
}

/// The index of the first bit at which the two keys differ, numbered from
/// the most significant bit of the first byte; nothing if the keys are
/// identical. Closer keys share more leading bits and map to a higher
/// index.
pub fn kbucket_index(own_pk: &PublicKey, other_pk: &PublicKey) -> (r: Option<u8>)
    ensures
        match r {
            Some(idx) => 0 <= idx < 256 && key_bit(own_pk@, idx as int) != key_bit(
                other_pk@,
                idx as int,
            ) && forall|j: int|
                0 <= j < idx ==> key_bit(own_pk@, j) == key_bit(other_pk@, j),
            None => own_pk@ == other_pk@,
        },
{
    let mut byte: usize = 0;
    while byte < 32
        invariant
            byte <= 32,
            forall|j: int| 0 <= j < byte ==> own_pk.0@[j] == other_pk.0@[j],
        decreases 32 - byte,
    {
        let xoring = own_pk.0[byte] ^ other_pk.0[byte];
        if xoring != 0 {
            let mut bit: usize = 0;
            while bit < 8
                invariant
                    bit <= 8,
                    byte < 32,
                    xoring == own_pk.0@[byte as int] ^ other_pk.0@[byte as int],
                    forall|j: int| 0 <= j < byte ==> own_pk.0@[j] == other_pk.0@[j],
                    forall|t: u8| t < bit ==> #[trigger] (xoring & (0x80u8 >> t)) == 0,
                decreases 8 - bit,
            {
                if xoring & (0x80u8 >> (bit as u8)) != 0 {
                    let idx = (byte * 8 + bit) as u8;
                    proof {
                        let x = own_pk.0@[byte as int];
                        let y = other_pk.0@[byte as int];
                        let bi = byte as int;
                        let ti = bit as int;
                        assert forall|j: int| 0 <= j < idx implies key_bit(own_pk@, j) == key_bit(
                            other_pk@,
                            j,
                        ) by {
                            assert(j / 8 <= bi && 0 <= j % 8 < 8 && (j / 8 == bi ==> j % 8 < ti))
                                by (nonlinear_arith)
                                requires
                                    0 <= j,
                                    j < 8 * bi + ti,
                                    0 <= ti < 8,
                            ;
                            if j / 8 < bi {
                                assert(own_pk.0@[j / 8] == other_pk.0@[j / 8]);
                            } else {
                                let tj = (j % 8) as u8;
                                assert((xoring & (0x80u8 >> tj)) == 0);
                                assert(((x ^ y) & (0x80u8 >> tj)) == 0 ==> ((x & (0x80u8 >> tj)
                                    != 0) == (y & (0x80u8 >> tj) != 0))) by (bit_vector);
                            }
                        }
                        assert((8 * bi + ti) / 8 == bi && (8 * bi + ti) % 8 == ti)
                            by (nonlinear_arith)
                            requires
                                0 <= ti < 8,
                                0 <= bi,
                        ;
                        let tb = bit as u8;
                        assert(((x ^ y) & (0x80u8 >> tb)) != 0 ==> ((x & (0x80u8 >> tb) != 0) != (
                        y & (0x80u8 >> tb) != 0))) by (bit_vector);
                    }
                    return Some(idx);
                }
                bit += 1;
            }
            proof {
                assert(xoring & (0x80u8 >> 0u8) == 0);
                assert(xoring & (0x80u8 >> 1u8) == 0);
                assert(xoring & (0x80u8 >> 2u8) == 0);
                assert(xoring & (0x80u8 >> 3u8) == 0);
                assert(xoring & (0x80u8 >> 4u8) == 0);
                assert(xoring & (0x80u8 >> 5u8) == 0);
                assert(xoring & (0x80u8 >> 6u8) == 0);
                assert(xoring & (0x80u8 >> 7u8) == 0);
                let z = xoring;
                assert(z == 0) by (bit_vector)
                    requires
                        z & (0x80u8 >> 0u8) == 0,
                        z & (0x80u8 >> 1u8) == 0,
                        z & (0x80u8 >> 2u8) == 0,
                        z & (0x80u8 >> 3u8) == 0,
                        z & (0x80u8 >> 4u8) == 0,
                        z & (0x80u8 >> 5u8) == 0,
                        z & (0x80u8 >> 6u8) == 0,
                        z & (0x80u8 >> 7u8) == 0,
                ;
                assert(false);
            }
        }
        proof {
            let x = own_pk.0@[byte as int];
            let y = other_pk.0@[byte as int];
            assert((x ^ y) == 0 ==> x == y) by (bit_vector);
        }
        byte += 1;
    }
    proof {
        assert(own_pk.0@ =~= other_pk.0@);
    }
    None
}

/// A routing-table entry: a contact enriched with the liveness data the
/// maintenance layer needs.
#[derive(Clone, Copy, PartialEq, Debug)]
pub struct Node {
    /// The liveness deadline, mutated by the external maintenance logic.
    pub timeout: u64,
    /// The outstanding ping id; 0 means none.
    pub id: u64,
    /// The contact this entry tracks.
    pub node: PackedNode,
}

impl Node {
    /// Track a newly observed contact; the outstanding ping id starts at 0.
    pub fn new(node: &PackedNode, timeout: u64) -> (r: Node)
        ensures
            r.node == *node,
            r.timeout == timeout,
            r.id == 0,
    {
        Node { timeout, id: 0, node: *node }
    }

    /// Set the outstanding ping id, to correlate a future ping response.
    pub fn id(&mut self, id: u64)
        ensures
            final(self).id == id,
            final(self).timeout == old(self).timeout,
            final(self).node == old(self).node,
    {
        self.id = id;
    }

    /// The contact's identity key, read-only.
    pub fn pk(&self) -> (r: &PublicKey)
        ensures
            *r == self.node.pk,
    {
        &self.node.pk
    }
}

/// Where a node would stand in a distance-ordered sequence: the first
/// position whose occupant is strictly farther from the owner key.
pub open spec fn bucket_insert_pos(pk: Seq<u8>, nodes: Seq<Node>, n: Node) -> int
    decreases nodes.len(),
{
    if nodes.len() == 0 {
        0
    } else if dist_cmp(pk, n.node.pk@, nodes[0].node.pk@) == Ordering::Less {
        0
    } else {
        1 + bucket_insert_pos(pk, nodes.drop_first(), n)
    }
}

/// Whether inserting succeeds: no held contact at distance `Equal` (by the
/// XOR metric that means the same key), and either room in the bucket or
/// the new node strictly closer than the current farthest.
pub open spec fn bucket_can_add(pk: Seq<u8>, nodes: Seq<Node>, n: Node) -> bool {
    (forall|i: int|
        0 <= i < nodes.len() ==> dist_cmp(pk, n.node.pk@, (#[trigger] nodes[i]).node.pk@)
            != Ordering::Equal) && (nodes.len() < 8 || dist_cmp(
        pk,
        n.node.pk@,
        nodes.last().node.pk@,
    ) == Ordering::Less)
}

/// The contents after a successful insertion: the current farthest entry is
/// evicted when the bucket is full, and the node stands at its
/// distance-ordered position.
pub open spec fn bucket_inserted(pk: Seq<u8>, nodes: Seq<Node>, n: Node) -> Seq<Node> {
    let base = if nodes.len() < 8 {
        nodes
    } else {
        nodes.drop_last()
    };
    base.insert(bucket_insert_pos(pk, base, n), n)
}

/// `bucket_insert_pos` is the position of the first strictly-farther
/// occupant.
proof fn lemma_insert_pos_at(pk: Seq<u8>, nodes: Seq<Node>, n: Node, i: int)
    requires
        0 <= i <= nodes.len(),
        forall|j: int|
            0 <= j < i ==> dist_cmp(pk, n.node.pk@, (#[trigger] nodes[j]).node.pk@)
                != Ordering::Less,
        i < nodes.len() ==> dist_cmp(pk, n.node.pk@, nodes[i].node.pk@) == Ordering::Less,
    ensures
        bucket_insert_pos(pk, nodes, n) == i,
    decreases nodes.len(),
{
    if nodes.len() == 0 {
    } else if i == 0 {
    } else {
        assert(dist_cmp(pk, n.node.pk@, nodes[0].node.pk@) != Ordering::Less);
        assert(forall|j: int|
            0 <= j < i - 1 ==> nodes.drop_first()[j] == nodes[j + 1]);
        lemma_insert_pos_at(pk, nodes.drop_first(), n, i - 1);
    }
}

/// A fixed-capacity bucket of contacts at one distance class, kept in
/// ascending XOR distance from the owner key.
#[derive(Clone, Debug)]
pub struct Bucket {
    /// The owner key every distance is measured from.
    pub pk: PublicKey,
    /// Which distance class this bucket is for.
    pub index: u8,
    /// The contacts, in ascending XOR distance from `pk`; hold the `wf`
    /// invariant when touching this directly.
    pub nodes: Vec<Node>,
}

impl View for Bucket {
    type V = Seq<Node>;

    open spec fn view(&self) -> Seq<Node> {
        self.nodes@
    }
}

impl Bucket {
    /// Well-formedness: at most 8 entries, in strictly ascending XOR
    /// distance from the owner key.
    pub open spec fn wf(&self) -> bool {
        self@.len() <= 8 && forall|i: int, j: int|
            #![trigger self@[i], self@[j]]
            0 <= i < j < self@.len() ==> dist_cmp(self.pk@, self@[i].node.pk@, self@[j].node.pk@)
                == Ordering::Less
    }

    /// An empty bucket bound to an owner key and a distance-class index.
    pub fn new(pk: &PublicKey, index: u8) -> (r: Bucket)
        ensures
            r.pk == *pk,
            r.index == index,
            r@ == Seq::<Node>::empty(),
            r.wf(),
    {
        let r = Bucket { pk: *pk, index, nodes: Vec::new() };
        proof {
            assert(r@ =~= Seq::<Node>::empty());
        }
        r
    }

    /// How many contacts the bucket holds.
    pub fn len(&self) -> (r: usize)
        ensures
            r == self@.len(),
    {
        self.nodes.len()
    }

    /// The contact at `i`, for reading the bucket out in distance order.
    pub fn get(&self, i: usize) -> (r: &Node)
        requires
            i < self@.len(),
        ensures
            *r == self@[i as int],
    {
        &self.nodes[i]
    }

    /// Insert a contact, keeping ascending-distance order: with room, the
    /// insertion succeeds; when full, it succeeds only by evicting the
    /// current farthest entry when the new node is strictly closer, and
    /// fails with no change otherwise — in particular on an exact duplicate
    /// of a held contact.
    pub fn try_add(&mut self, node: &Node) -> (r: bool)
        requires
            old(self).wf(),
        ensures
            final(self).wf(),
            final(self).pk == old(self).pk,
            final(self).index == old(self).index,
            r == bucket_can_add(old(self).pk@, old(self)@, *node),
            r ==> final(self)@ == bucket_inserted(old(self).pk@, old(self)@, *node),
            !r ==> final(self)@ == old(self)@,
    {
        let len = self.nodes.len();
        let mut i: usize = 0;
        while i < len
            invariant
                *self == *old(self),
                self.wf(),
                len == self@.len(),
                i <= len,
                forall|j: int|
                    0 <= j < i ==> dist_cmp(
                        self.pk@,
                        node.node.pk@,
                        (#[trigger] self@[j]).node.pk@,
                    ) == Ordering::Greater,
            decreases len - i,
        {
            match self.pk.distance(&node.node.pk, &self.nodes[i].node.pk) {
                Ordering::Less => {
                    let ghost pk = self.pk@;
                    let ghost olds = self@;
                    proof {
                        assert forall|j: int|
                            0 <= j < olds.len() implies dist_cmp(
                            pk,
                            node.node.pk@,
                            (#[trigger] olds[j]).node.pk@,
                        ) != Ordering::Equal by {
                            if j < i {
                            } else if j == i {
                            } else {
                                lemma_distance_transitive(
                                    pk,
                                    node.node.pk@,
                                    olds[i as int].node.pk@,
                                    olds[j].node.pk@,
                                );
                            }
                        }
                        if olds.len() == 8 {
                            if i < 7 {
                                lemma_distance_transitive(
                                    pk,
                                    node.node.pk@,
                                    olds[i as int].node.pk@,
                                    olds[7].node.pk@,
                                );
                            }
                            assert(dist_cmp(pk, node.node.pk@, olds.last().node.pk@)
                                == Ordering::Less);
                        }
                        assert(bucket_can_add(pk, olds, *node));
                    }
                    if self.nodes.len() == BUCKET_DEFAULT_SIZE {
                        let _ = self.nodes.pop();
                    }
                    self.nodes.insert(i, *node);
                    proof {
                        let base = if olds.len() < 8 {
                            olds
                        } else {
                            olds.drop_last()
                        };
                        assert(forall|j: int| 0 <= j < base.len() ==> base[j] == olds[j]);
                        lemma_insert_pos_at(pk, base, *node, i as int);
                        assert(self@ =~= bucket_inserted(pk, olds, *node));
                        let now = self@;
                        assert forall|a: int, b: int|
                            #![trigger now[a], now[b]]
                            0 <= a < b < now.len() implies dist_cmp(
                            pk,
                            now[a].node.pk@,
                            now[b].node.pk@,
                        ) == Ordering::Less by {
                            let ia = i as int;
                            if a == ia {
                                // `node` against a later, farther occupant
                                if b - 1 > ia {
                                    lemma_distance_transitive(
                                        pk,
                                        node.node.pk@,
                                        base[ia].node.pk@,
                                        base[b - 1].node.pk@,
                                    );
                                }
                            } else if b == ia {
                                // an earlier occupant against `node`
                                lemma_distance_antisymmetric(pk, node.node.pk@, base[a].node.pk@);
                            } else {
                            }
                        }
                    }
                    return true;
                },
                Ordering::Equal => {
                    proof {
                        assert(!bucket_can_add(self.pk@, self@, *node));
                    }
                    return false;
                },
                Ordering::Greater => {},
            }
            i += 1;
        }
        if self.nodes.len() < BUCKET_DEFAULT_SIZE {
            let ghost pk = self.pk@;
            let ghost olds = self@;
            self.nodes.push(*node);
            proof {
                lemma_insert_pos_at(pk, olds, *node, olds.len() as int);
                assert(self@ =~= bucket_inserted(pk, olds, *node));
                let now = self@;
                assert forall|a: int, b: int|
                    #![trigger now[a], now[b]]
                    0 <= a < b < now.len() implies dist_cmp(pk, now[a].node.pk@, now[b].node.pk@)
                    == Ordering::Less by {
                    if b == olds.len() as int {
                        lemma_distance_antisymmetric(pk, node.node.pk@, olds[a].node.pk@);
                    }
                }
            }
            true
        } else {
            proof {
                assert(dist_cmp(self.pk@, node.node.pk@, self@.last().node.pk@)
                    != Ordering::Less);
                assert(!bucket_can_add(self.pk@, self@, *node));
            }
            false
        }
    }
}

} // verus!
