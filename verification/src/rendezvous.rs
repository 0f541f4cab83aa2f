//! Rendezvous (highest random weight) hashing: every member of a cluster can
//! decide on its own which member owns an item, and adding a member only moves
//! items onto the new member.

use vstd::prelude::*;
use vstd::string::StringSliceAdditionalSpecFns;

verus! {

/// The score that the xxh3 hash gives to `node` for `item`.
pub uninterp spec fn node_item_score(node: Seq<u8>, item: Seq<u8>) -> u64;

/// Calls the streaming `xxhash_rust::xxh3::Xxh3` hasher: `default()`, then
/// `update(node)`, `update(item)` and `digest()`. The contract claims only that
/// the digest is a function of the two byte strings, named `node_item_score`.
#[verifier::external_body]
fn score_for_node(node: &[u8], item: &[u8]) -> (score: u64)
    ensures
        score == node_item_score(node@, item@),
{
    let mut hasher = xxhash_rust::xxh3::Xxh3::default();
    hasher.update(node);
    hasher.update(item);
    hasher.digest()
}

/// Something that can be hashed by its bytes (a node name or an item key).
pub trait HashKey {
    spec fn key_bytes(&self) -> Seq<u8>;

    fn as_key_bytes(&self) -> (bytes: &[u8])
        ensures
            bytes@ == self.key_bytes(),
    ;
}

impl HashKey for String {
    open spec fn key_bytes(&self) -> Seq<u8> {
        vstd::utf8::encode_utf8(self@)
    }

    fn as_key_bytes(&self) -> (bytes: &[u8]) {
        self.as_str().as_bytes()
    }
}

impl<'a> HashKey for &'a str {
    open spec fn key_bytes(&self) -> Seq<u8> {
        (*self).spec_bytes()
    }

    fn as_key_bytes(&self) -> (bytes: &[u8]) {
        (*self).as_bytes()
    }
}

impl HashKey for str {
    open spec fn key_bytes(&self) -> Seq<u8> {
        self.spec_bytes()
    }

    fn as_key_bytes(&self) -> (bytes: &[u8]) {
        self.as_bytes()
    }
}

impl HashKey for [u8] {
    open spec fn key_bytes(&self) -> Seq<u8> {
        self@
    }

    fn as_key_bytes(&self) -> (bytes: &[u8]) {
        self
    }
}

impl HashKey for Vec<u8> {
    open spec fn key_bytes(&self) -> Seq<u8> {
        self@
    }

    fn as_key_bytes(&self) -> (bytes: &[u8]) {
        self.as_slice()
    }
}

/// The bytes of a 128-bit id, most significant first (the bytes of a UUID).
pub open spec fn id_bytes(id: u128) -> Seq<u8> {
    Seq::new(16, |i: int| ((id >> ((8 * (15 - i)) as u128)) & 0xff) as u8)
}

/// The bytes of a 128-bit id, most significant first.
pub fn id_key(id: u128) -> (bytes: Vec<u8>)
    ensures
        bytes@ == id_bytes(id),
{
    let mut bytes: Vec<u8> = Vec::new();
    let mut i: u32 = 0;
    while i < 16
        invariant
            0 <= i <= 16,
            bytes@.len() == i,
            forall|j: int| 0 <= j < i ==> bytes@[j] == id_bytes(id)[j],
        decreases 16 - i,
    {
        let shift: u32 = 8 * (15 - i);
        let b = ((id >> shift) & 0xff) as u8;
        assert(b == id_bytes(id)[i as int]);
        bytes.push(b);
        i = i + 1;
    }
    assert(bytes@ =~= id_bytes(id));
    bytes
}

/// The scores of every node for one item, in node order.
pub open spec fn scores<Node: HashKey>(nodes: Seq<Node>, item: Seq<u8>) -> Seq<u64> {
    nodes.map_values(|n: Node| node_item_score(n.key_bytes(), item))
}

/// The index of the last maximal score, or -1 for no scores
/// (the element that `Iterator::max_by_key` picks).
pub open spec fn winner_index(s: Seq<u64>) -> int
    decreases s.len(),
{
    if s.len() == 0 {
        -1
    } else {
        let w = winner_index(s.drop_last());
        if w < 0 || s.last() >= s[w] {
            s.len() - 1
        } else {
            w
        }
    }
}

pub proof fn lemma_winner_index(s: Seq<u64>)
    ensures
        s.len() == 0 <==> winner_index(s) == -1,
        s.len() > 0 ==> 0 <= winner_index(s) < s.len(),
        s.len() > 0 ==> forall|j: int| 0 <= j < s.len() ==> #[trigger] s[j] <= s[winner_index(s)],
        s.len() > 0 ==> forall|j: int|
            winner_index(s) < j < s.len() ==> #[trigger] s[j] < s[winner_index(s)],
    decreases s.len(),
{
    if s.len() > 0 {
        let t = s.drop_last();
        lemma_winner_index(t);
        let w = winner_index(s);
        assert forall|j: int| 0 <= j < s.len() implies #[trigger] s[j] <= s[w] by {
            if j < s.len() - 1 {
                assert(s[j] == t[j]);
            }
        }
        assert forall|j: int| w < j < s.len() implies #[trigger] s[j] < s[w] by {
            if j < s.len() - 1 {
                assert(s[j] == t[j]);
            }
        }
    }
}

pub struct Rendezvous<Node> {
    nodes: Vec<Node>,
}

impl<Node> View for Rendezvous<Node> {
    type V = Seq<Node>;

    closed spec fn view(&self) -> Seq<Node> {
        self.nodes@
    }
}

impl<Node> Default for Rendezvous<Node> {
    fn default() -> (r: Self)
        ensures
            r@ == Seq::<Node>::empty(),
    {
        Rendezvous { nodes: Vec::new() }
    }
}

impl<Node> Rendezvous<Node> {
    pub fn new() -> (r: Self)
        ensures
            r@ == Seq::<Node>::empty(),
    {
        Rendezvous { nodes: Vec::new() }
    }

    pub fn with_me(me: Node) -> (r: Self)
        ensures
            r@ == seq![me],
    {
        let mut nodes = Vec::new();
        nodes.push(me);
        Rendezvous { nodes }
    }

    pub fn clear(&mut self)
        ensures
            final(self)@ == Seq::<Node>::empty(),
    {
        self.nodes.clear();
    }

    pub fn add_node(&mut self, node: Node)
        ensures
            final(self)@ == old(self)@.push(node),
    {
        self.nodes.push(node);
    }
}

impl<Node: HashKey> Rendezvous<Node> {
    /// The node that owns `item`: the one with the highest score, the last such
    /// node when several share it; `None` when there are no nodes.
    pub fn node_for_item<Item: HashKey + ?Sized>(&self, item: &Item) -> (r: Option<&Node>)
        ensures
            r is None <==> self@.len() == 0,
            r matches Some(n) ==> *n == self@[winner_index(scores(self@, item.key_bytes()))],
    {
        let ghost s = scores(self@, item.key_bytes());
        let item_bytes = item.as_key_bytes();
        let mut best: Option<usize> = None;
        let mut best_score: u64 = 0;
        let mut i: usize = 0;
        while i < self.nodes.len()
            invariant
                0 <= i <= self.nodes@.len(),
                s == scores(self.nodes@, item_bytes@),
                item_bytes@ == item.key_bytes(),
                best is None <==> i == 0,
                best matches Some(b) ==> {
                    &&& b < i
                    &&& b == winner_index(s.take(i as int))
                    &&& best_score == s[b as int]
                },
            decreases self.nodes@.len() - i,
        {
            let score = score_for_node(self.nodes[i].as_key_bytes(), item_bytes);
            proof {
                assert(s.take(i + 1).drop_last() =~= s.take(i as int));
                assert(s[i as int] == score);
                assert(s.take(i + 1).last() == score);
                let t = s.take(i + 1);
                lemma_winner_index(s.take(i as int));
                if i > 0 {
                    assert(t[best->0 as int] == s[best->0 as int]);
                }
                assert(winner_index(t) == if best is None || score >= best_score {
                    i as int
                } else {
                    best->0 as int
                });
            }
            match best {
                None => {
                    best = Some(i);
                    best_score = score;
                },
                Some(_) => {
                    if score >= best_score {
                        best = Some(i);
                        best_score = score;
                    }
                },
            }
            i = i + 1;
        }
        proof {
            assert(s.take(i as int) =~= s);
        }
        match best {
            None => None,
            Some(b) => Some(&self.nodes[b]),
        }
    }

    /// Whether the node that owns `item` has the same name as `me`.
    pub fn item_is_mine<Item: HashKey + ?Sized, Me: HashKey + ?Sized>(
        &self,
        me: &Me,
        item: &Item,
    ) -> (r: bool)
        ensures
            r <==> self@.len() > 0 && self@[winner_index(
                scores(self@, item.key_bytes()),
            )].key_bytes() == me.key_bytes(),
    {
        match self.node_for_item(item) {
            None => false,
            Some(node) => bytes_equal(node.as_key_bytes(), me.as_key_bytes()),
        }
    }
}

fn bytes_equal(a: &[u8], b: &[u8]) -> (r: bool)
    ensures
        r <==> a@ == b@,
{
    if a.len() != b.len() {
        return false;
    }
    let mut i: usize = 0;
    while i < a.len()
        invariant
            0 <= i <= a@.len(),
            a@.len() == b@.len(),
            forall|j: int| 0 <= j < i ==> a@[j] == b@[j],
        decreases a@.len() - i,
    {
        if a[i] != b[i] {
            return false;
        }
        i = i + 1;
    }
    assert(a@ =~= b@);
    true
}

/// Adding a node to a cluster moves an item only onto the new node: the owner of
/// every item afterwards is either its owner before or the node that was added.
pub proof fn lemma_add_node_keeps_or_takes<Node: HashKey>(
    nodes: Seq<Node>,
    node: Node,
    item: Seq<u8>,
)
    ensures
        ({
            let before = winner_index(scores(nodes, item));
            let after = winner_index(scores(nodes.push(node), item));
            after == before || after == nodes.len()
        }),
{
    let s = scores(nodes, item);
    let s2 = scores(nodes.push(node), item);
    assert(s2.drop_last() =~= s);
}

/// The owner of an item has the highest score of all nodes for it, and every node
/// after it in the list scores strictly less.
pub proof fn lemma_owner_scores_highest<Node: HashKey>(nodes: Seq<Node>, item: Seq<u8>)
    requires
        nodes.len() > 0,
    ensures
        ({
            let s = scores(nodes, item);
            let w = winner_index(s);
            &&& 0 <= w < nodes.len()
            &&& forall|j: int|
                0 <= j < nodes.len() ==> #[trigger] node_item_score(nodes[j].key_bytes(), item)
                    <= node_item_score(nodes[w].key_bytes(), item)
            &&& forall|j: int|
                w < j < nodes.len() ==> #[trigger] node_item_score(nodes[j].key_bytes(), item)
                    < node_item_score(nodes[w].key_bytes(), item)
        }),
{
    let s = scores(nodes, item);
    lemma_winner_index(s);
    let w = winner_index(s);
    assert forall|j: int| 0 <= j < nodes.len() implies #[trigger] node_item_score(
        nodes[j].key_bytes(),
        item,
    ) <= node_item_score(nodes[w].key_bytes(), item) by {
        assert(s[j] <= s[w]);
    }
    assert forall|j: int| w < j < nodes.len() implies #[trigger] node_item_score(
        nodes[j].key_bytes(),
        item,
    ) < node_item_score(nodes[w].key_bytes(), item) by {
        assert(s[j] < s[w]);
    }
}

/// With no nodes, no item has an owner and none is anybody's.
pub proof fn lemma_empty_owns_nothing<Node: HashKey>(item: Seq<u8>)
    ensures
        winner_index(scores(Seq::<Node>::empty(), item)) == -1,
{
    assert(scores(Seq::<Node>::empty(), item).len() == 0);
}

} // verus!
