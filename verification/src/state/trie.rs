//! A Merkle Patricia trie: nodes stored by the Keccak-256 hash of their
//! JSON encoding, keys walked as nibbles, and proofs of the nodes on a
//! key's path.
use vstd::prelude::*;
use crate::primitives::hashing::{keccak256, keccak256_spec};
use crate::primitives::text::str_to_chars;
use crate::state::{StateError, StateResult};

verus! {

type VHash = crate::primitives::types::Hash;

/// A node of the trie.
#[derive(Clone, Debug)]
pub enum TrieNode {
    Empty,
    Leaf { key_end: Vec<u8>, value: Vec<u8> },
    Extension { prefix: Vec<u8>, child: VHash },
    Branch { children: [Option<VHash>; 16], value: Option<Vec<u8>> },
}

/// A node as plain values.
pub enum NodeView {
    Empty,
    Leaf { key_end: Seq<u8>, value: Seq<u8> },
    Extension { prefix: Seq<u8>, child: Seq<u8> },
    Branch { children: Seq<Option<Seq<u8>>>, value: Option<Seq<u8>> },
}

/// The bytes of a hash, if any.
pub open spec fn opt_hash_view(o: Option<VHash>) -> Option<Seq<u8>> {
    match o { Some(h) => Some(h.0@), None => None }
}

impl View for TrieNode {
    type V = NodeView;

    open spec fn view(&self) -> NodeView {
        match self {
            TrieNode::Empty => NodeView::Empty,
            TrieNode::Leaf { key_end, value } => NodeView::Leaf { key_end: key_end@, value: value@ },
            TrieNode::Extension { prefix, child } => NodeView::Extension { prefix: prefix@, child: child.0@ },
            TrieNode::Branch { children, value } => NodeView::Branch {
                children: children@.map_values(|c: Option<VHash>| opt_hash_view(c)),
                value: match value { Some(v) => Some(v@), None => None },
            },
        }
    }
}

/// The bytes of an ASCII text.
pub open spec fn text(s: Seq<char>) -> Seq<u8> {
    Seq::new(s.len(), |i: int| s[i] as u8)
}

/// The decimal digits of a byte value.
pub open spec fn dec_u8(b: u8) -> Seq<u8> {
    if b < 10 {
        seq![(48 + b) as u8]
    } else if b < 100 {
        seq![(48 + b / 10) as u8, (48 + b % 10) as u8]
    } else {
        seq![(48 + b / 100) as u8, (48 + (b / 10) % 10) as u8, (48 + b % 10) as u8]
    }
}

/// Comma-separated decimal byte values.
pub open spec fn num_list(bs: Seq<u8>) -> Seq<u8>
    decreases bs.len(),
{
    if bs.len() == 0 {
        Seq::empty()
    } else if bs.len() == 1 {
        dec_u8(bs[0])
    } else {
        num_list(bs.drop_last()) + seq![44u8] + dec_u8(bs.last())
    }
}

/// A JSON array of byte values.
pub open spec fn json_bytes(bs: Seq<u8>) -> Seq<u8> {
    seq![91u8] + num_list(bs) + seq![93u8]
}

/// `null`, or the JSON array of the bytes.
pub open spec fn json_opt(o: Option<Seq<u8>>) -> Seq<u8> {
    match o { Some(b) => json_bytes(b), None => text("null"@) }
}

/// Comma-separated optional byte arrays.
pub open spec fn opt_list(cs: Seq<Option<Seq<u8>>>) -> Seq<u8>
    decreases cs.len(),
{
    if cs.len() == 0 {
        Seq::empty()
    } else if cs.len() == 1 {
        json_opt(cs[0])
    } else {
        opt_list(cs.drop_last()) + seq![44u8] + json_opt(cs.last())
    }
}

/// The JSON encoding of a node, as `serde_json` writes the derived form.
pub open spec fn node_json(n: NodeView) -> Seq<u8> {
    match n {
        NodeView::Empty => text("\"Empty\""@),
        NodeView::Leaf { key_end, value } =>
            text("{\"Leaf\":{\"key_end\":"@) + json_bytes(key_end) + text(",\"value\":"@) + json_bytes(value) + text("}}"@),
        NodeView::Extension { prefix, child } =>
            text("{\"Extension\":{\"prefix\":"@) + json_bytes(prefix) + text(",\"child\":"@) + json_bytes(child) + text("}}"@),
        NodeView::Branch { children, value } =>
            text("{\"Branch\":{\"children\":["@) + opt_list(children) + text("],\"value\":"@) + json_opt(value) + text("}}"@),
    }
}

/// The hash of a node: Keccak-256 of its encoding.
pub open spec fn node_hash_spec(n: NodeView) -> Seq<u8> {
    keccak256_spec(node_json(n))
}

pub(crate) fn push_text(out: &mut Vec<u8>, s: &str)
    ensures final(out)@ == old(out)@ + text(s@),
{
    let cs = str_to_chars(s);
    let ghost start = out@;
    let mut i: usize = 0;
    while i < cs.len()
        invariant
            i <= cs@.len(),
            cs@ == s@,
            out@ == start + text(cs@.subrange(0, i as int)),
        decreases cs@.len() - i,
    {
        out.push(cs[i] as u8);
        assert(text(cs@.subrange(0, i + 1)) =~= text(cs@.subrange(0, i as int)).push(cs@[i as int] as u8));
        i = i + 1;
    }
    assert(cs@.subrange(0, i as int) =~= cs@);
}

fn push_dec(out: &mut Vec<u8>, b: u8)
    ensures final(out)@ == old(out)@ + dec_u8(b),
{
    let ghost start = out@;
    if b < 10 {
        out.push(48 + b);
    } else if b < 100 {
        out.push(48 + b / 10);
        out.push(48 + b % 10);
    } else {
        out.push(48 + b / 100);
        out.push(48 + (b / 10) % 10);
        out.push(48 + b % 10);
    }
    assert(out@ =~= start + dec_u8(b));
}

pub(crate) fn push_json_bytes(out: &mut Vec<u8>, bs: &[u8])
    ensures final(out)@ == old(out)@ + json_bytes(bs@),
{
    let ghost start = out@;
    out.push(91);
    let mut i: usize = 0;
    assert(bs@.subrange(0, 0) =~= Seq::<u8>::empty());
    while i < bs.len()
        invariant
            i <= bs@.len(),
            out@ == start + seq![91u8] + num_list(bs@.subrange(0, i as int)),
        decreases bs@.len() - i,
    {
        let ghost before = out@;
        if i > 0 {
            out.push(44);
        }
        push_dec(out, bs[i]);
        proof {
            let sub = bs@.subrange(0, i + 1);
            assert(sub.drop_last() =~= bs@.subrange(0, i as int));
            if i == 0 {
                assert(num_list(bs@.subrange(0, 0)) =~= Seq::<u8>::empty());
                assert(out@ =~= start + seq![91u8] + num_list(sub));
            } else {
                assert(out@ =~= start + seq![91u8] + num_list(sub));
            }
        }
        i = i + 1;
    }
    assert(bs@.subrange(0, i as int) =~= bs@);
    out.push(93);
    assert(out@ =~= start + json_bytes(bs@));
}

fn push_json_opt(out: &mut Vec<u8>, o: Option<&[u8]>)
    ensures
        final(out)@ == old(out)@ + json_opt(match o { Some(b) => Some(b@), None => None }),
{
    match o {
        Some(b) => push_json_bytes(out, b),
        None => push_text(out, "null"),
    }
}

fn encode_node(n: &TrieNode) -> (r: Vec<u8>)
    ensures r@ == node_json(n@),
{
    let mut out: Vec<u8> = Vec::new();
    match n {
        TrieNode::Empty => {
            push_text(&mut out, "\"Empty\"");
        },
        TrieNode::Leaf { key_end, value } => {
            push_text(&mut out, "{\"Leaf\":{\"key_end\":");
            push_json_bytes(&mut out, key_end.as_slice());
            push_text(&mut out, ",\"value\":");
            push_json_bytes(&mut out, value.as_slice());
            push_text(&mut out, "}}");
        },
        TrieNode::Extension { prefix, child } => {
            push_text(&mut out, "{\"Extension\":{\"prefix\":");
            push_json_bytes(&mut out, prefix.as_slice());
            push_text(&mut out, ",\"child\":");
            push_json_bytes(&mut out, child.0.as_slice());
            push_text(&mut out, "}}");
        },
        TrieNode::Branch { children, value } => {
            push_text(&mut out, "{\"Branch\":{\"children\":[");
            let ghost cs = children@.map_values(|c: Option<VHash>| opt_hash_view(c));
            let ghost mid = out@;
            let mut i: usize = 0;
            assert(cs.subrange(0, 0) =~= Seq::<Option<Seq<u8>>>::empty());
            while i < 16
                invariant
                    i <= 16,
                    cs == children@.map_values(|c: Option<VHash>| opt_hash_view(c)),
                    out@ == mid + opt_list(cs.subrange(0, i as int)),
                decreases 16 - i,
            {
                if i > 0 {
                    out.push(44);
                }
                let o: Option<&[u8]> = match &children[i] { Some(h) => Some(h.0.as_slice()), None => None };
                push_json_opt(&mut out, o);
                proof {
                    let sub = cs.subrange(0, i + 1);
                    assert(sub.drop_last() =~= cs.subrange(0, i as int));
                    assert(sub.last() == opt_hash_view(children@[i as int]));
                    if i == 0 {
                        assert(opt_list(cs.subrange(0, 0)) =~= Seq::<u8>::empty());
                    }
                    assert(out@ =~= mid + opt_list(sub));
                }
                i = i + 1;
            }
            assert(cs.subrange(0, 16) =~= cs);
            push_text(&mut out, "],\"value\":");
            let o: Option<&[u8]> = match value { Some(v) => Some(v.as_slice()), None => None };
            push_json_opt(&mut out, o);
            push_text(&mut out, "}}");
        },
    }
    out
}

impl TrieNode {
    /// The node's hash: Keccak-256 of its encoding.
    pub fn hash(&self) -> (r: VHash)
        ensures r.0@ == node_hash_spec(self@),
    {
        let e = self.rlp_encode();
        crate::primitives::types::Hash::new(keccak256(e.as_slice()))
    }

    /// The node's encoding: its JSON form.
    pub fn rlp_encode(&self) -> (r: Vec<u8>)
        ensures r@ == node_json(self@),
    {
        encode_node(self)
    }
}

fn copy_bytes(v: &Vec<u8>) -> (r: Vec<u8>)
    ensures r@ == v@,
{
    vstd::slice::slice_to_vec(v.as_slice())
}

fn copy_node(n: &TrieNode) -> (r: TrieNode)
    ensures r@ == n@,
{
    match n {
        TrieNode::Empty => TrieNode::Empty,
        TrieNode::Leaf { key_end, value } => TrieNode::Leaf { key_end: copy_bytes(key_end), value: copy_bytes(value) },
        TrieNode::Extension { prefix, child } => TrieNode::Extension { prefix: copy_bytes(prefix), child: *child },
        TrieNode::Branch { children, value } => {
            let v = match value { Some(b) => Some(copy_bytes(b)), None => None };
            let r = TrieNode::Branch { children: *children, value: v };
            proof {
                assert(r@->Branch_children =~= n@->Branch_children);
            }
            r
        },
    }
}

/// The node stored under hash `h`: the latest entry for it.
pub open spec fn store_get(store: Seq<(VHash, TrieNode)>, h: Seq<u8>) -> Option<NodeView>
    decreases store.len(),
{
    if store.len() == 0 {
        None
    } else if store.last().0.0@ == h {
        Some(store.last().1@)
    } else {
        store_get(store.drop_last(), h)
    }
}

/// The nibbles (high then low half) of each byte of a key.
pub open spec fn nibbles(key: Seq<u8>) -> Seq<u8> {
    Seq::new(2 * key.len(), |i: int| if i % 2 == 0 { key[i / 2] / 16 } else { key[i / 2] % 16 })
}

/// `p` begins `s`.
pub open spec fn starts_with(s: Seq<u8>, p: Seq<u8>) -> bool {
    p.len() <= s.len() && s.subrange(0, p.len() as int) == p
}

/// The value found for the nibbles from `depth` on, starting at node `h`.
pub open spec fn lookup(store: Seq<(VHash, TrieNode)>, h: Seq<u8>, nibs: Seq<u8>, depth: int) -> Option<Seq<u8>>
    decreases nibs.len() - depth,
{
    if depth < 0 || depth > nibs.len() {
        None
    } else {
        let rest = nibs.subrange(depth, nibs.len() as int);
        match store_get(store, h) {
            None => None,
            Some(NodeView::Empty) => None,
            Some(NodeView::Leaf { key_end, value }) => if rest == key_end { Some(value) } else { None },
            Some(NodeView::Extension { prefix, child }) =>
                if prefix.len() > 0 && starts_with(rest, prefix) { lookup(store, child, nibs, depth + prefix.len()) } else { None },
            Some(NodeView::Branch { children, value }) =>
                if depth >= nibs.len() {
                    value
                } else {
                    match children[nibs[depth] as int] {
                        Some(c) => lookup(store, c, nibs, depth + 1),
                        None => None,
                    }
                },
        }
    }
}

/// The nodes visited from `h` along the nibbles from `depth` on, or `None`
/// when a node on the way is missing.
pub open spec fn proof_path(store: Seq<(VHash, TrieNode)>, h: Seq<u8>, nibs: Seq<u8>, depth: int) -> Option<Seq<NodeView>>
    decreases nibs.len() - depth,
{
    if depth < 0 || depth > nibs.len() {
        None
    } else {
        let rest = nibs.subrange(depth, nibs.len() as int);
        match store_get(store, h) {
            None => None,
            Some(n) => match n {
                NodeView::Extension { prefix, child } =>
                    if prefix.len() > 0 && starts_with(rest, prefix) {
                        match proof_path(store, child, nibs, depth + prefix.len()) {
                            Some(p) => Some(seq![n] + p),
                            None => None,
                        }
                    } else {
                        Some(seq![n])
                    },
                NodeView::Branch { children, value } =>
                    if depth < nibs.len() {
                        match children[nibs[depth] as int] {
                            Some(c) => match proof_path(store, c, nibs, depth + 1) {
                                Some(p) => Some(seq![n] + p),
                                None => None,
                            },
                            None => Some(seq![n]),
                        }
                    } else {
                        Some(seq![n])
                    },
                _ => Some(seq![n]),
            },
        }
    }
}

/// Every nibble is below 16.
pub open spec fn nibbles_ok(nibs: Seq<u8>) -> bool {
    forall|i: int| 0 <= i < nibs.len() ==> #[trigger] nibs[i] < 16
}

/// The 32 zero bytes: the hash of the empty trie.
pub open spec fn zero_hash() -> Seq<u8> {
    Seq::new(32, |i: int| 0u8)
}

/// A Merkle Patricia trie.
pub struct MerkleTrie {
    root: VHash,
    nodes: Vec<(VHash, TrieNode)>,
}

/// A proof for a key: the nodes on its path and the root they lead from.
pub struct MerkleProof {
    pub key: Vec<u8>,
    pub value: Option<Vec<u8>>,
    pub nodes: Vec<TrieNode>,
    pub root: VHash,
}

fn key_to_nibbles(key: &[u8]) -> (r: Vec<u8>)
    ensures r@ == nibbles(key@), nibbles_ok(r@),
{
    let mut out: Vec<u8> = Vec::new();
    let mut i: usize = 0;
    while i < key.len()
        invariant
            i <= key@.len(),
            out@ == nibbles(key@.subrange(0, i as int)),
        decreases key@.len() - i,
    {
        let b = key[i];
        out.push(b / 16);
        out.push(b % 16);
        assert(out@ =~= nibbles(key@.subrange(0, i + 1)));
        i = i + 1;
    }
    assert(key@.subrange(0, i as int) =~= key@);
    out
}

fn bytes_eq(a: &[u8], b: &[u8]) -> (r: bool)
    ensures r == (a@ == b@),
{
    if a.len() != b.len() {
        return false;
    }
    let mut i: usize = 0;
    while i < a.len()
        invariant i <= a@.len(), a@.len() == b@.len(), forall|k: int| 0 <= k < i ==> a@[k] == b@[k],
        decreases a@.len() - i,
    {
        if a[i] != b[i] {
            return false;
        }
        i = i + 1;
    }
    assert(a@ =~= b@);
    true
}

fn rest_starts_with(nibs: &[u8], depth: usize, p: &[u8]) -> (r: bool)
    requires depth <= nibs@.len(),
    ensures r == starts_with(nibs@.subrange(depth as int, nibs@.len() as int), p@),
{
    let n: usize = nibs.len();
    if p.len() > n - depth {
        return false;
    }
    let mut i: usize = 0;
    while i < p.len()
        invariant
            n == nibs@.len(),
            i <= p@.len(),
            depth + p@.len() <= nibs@.len(),
            forall|k: int| 0 <= k < i ==> nibs@[depth + k] == p@[k],
        decreases p@.len() - i,
    {
        if nibs[depth + i] != p[i] {
            return false;
        }
        i = i + 1;
    }
    assert(nibs@.subrange(depth as int, nibs@.len() as int).subrange(0, p@.len() as int) =~= p@);
    true
}

impl MerkleTrie {
    pub closed spec fn root_view(&self) -> Seq<u8> {
        self.root.0@
    }

    pub closed spec fn store(&self) -> Seq<(VHash, TrieNode)> {
        self.nodes@
    }

    /// Each stored node sits under its own hash, but for the empty node,
    /// which also sits under the zero hash.
    pub closed spec fn wf(&self) -> bool {
        forall|i: int| 0 <= i < self.nodes@.len() ==>
            (#[trigger] self.nodes@[i]).0.0@ == node_hash_spec(self.nodes@[i].1@)
                || (self.nodes@[i].0.0@ == zero_hash() && self.nodes@[i].1@ == NodeView::Empty)
    }

    /// An empty trie: its root is the zero hash, holding the empty node.
    pub fn new() -> (t: Self)
        ensures
            t.wf(), t.root_view() == zero_hash(), store_get(t.store(), zero_hash()) == Some(NodeView::Empty),
            trie_sound(t.store()), hashes_unique(t.store()),
            forall|k: Seq<u8>| #[trigger] lookup(t.store(), t.root_view(), nibbles(k), 0) is None,
    {
        let mut nodes: Vec<(VHash, TrieNode)> = Vec::new();
        let z = crate::primitives::types::Hash::zero();
        nodes.push((z, TrieNode::Empty));
        let t = MerkleTrie { root: z, nodes };
        proof {
            assert(t.nodes@[0].1@ == NodeView::Empty);
            assert forall|i: int| 0 <= i < t.nodes@.len() implies refs_in((#[trigger] t.nodes@[i]).1@, t.nodes@) && parts_ok(t.nodes@[i].1@) by {
                assert(i == 0);
            }
        }
        t
    }

    /// The root hash.
    pub fn root(&self) -> (r: &VHash)
        ensures r.0@ == self.root_view(),
    {
        &self.root
    }

    fn find_node(&self, h: &VHash) -> (r: Option<&TrieNode>)
        ensures
            match r {
                Some(n) => store_get(self.nodes@, h.0@) == Some(n@),
                None => store_get(self.nodes@, h.0@) is None,
            },
    {
        let mut i: usize = self.nodes.len();
        assert(self.nodes@.subrange(0, i as int) =~= self.nodes@);
        while i > 0
            invariant
                i <= self.nodes@.len(),
                store_get(self.nodes@, h.0@) == store_get(self.nodes@.subrange(0, i as int), h.0@),
            decreases i,
        {
            let ghost sub = self.nodes@.subrange(0, i as int);
            assert(sub.last() == self.nodes@[i - 1]);
            if self.nodes[i - 1].0 == *h {
                return Some(&self.nodes[i - 1].1);
            }
            assert(sub.drop_last() =~= self.nodes@.subrange(0, i - 1));
            i = i - 1;
        }
        None
    }

    /// The value stored under a key.
    pub fn get(&self, key: &[u8]) -> (r: Option<Vec<u8>>)
        ensures
            match lookup(self.store(), self.root_view(), nibbles(key@), 0) {
                Some(v) => r matches Some(x) && x@ == v,
                None => r is None,
            },
    {
        let nibs = key_to_nibbles(key);
        self.get_recursive(&self.root, nibs.as_slice(), 0)
    }

    fn get_recursive(&self, node_hash: &VHash, nibbles: &[u8], depth: usize) -> (r: Option<Vec<u8>>)
        requires depth <= nibbles@.len(), nibbles_ok(nibbles@),
        ensures
            match lookup(self.nodes@, node_hash.0@, nibbles@, depth as int) {
                Some(v) => r matches Some(x) && x@ == v,
                None => r is None,
            },
        decreases nibbles@.len() - depth,
    {
        let n: usize = nibbles.len();
        let node = match self.find_node(node_hash) {
            Some(n) => n,
            None => { return None; },
        };
        match node {
            TrieNode::Empty => None,
            TrieNode::Leaf { key_end, value } => {
                let rest = vstd::slice::slice_subrange(nibbles, depth, nibbles.len());
                if bytes_eq(rest, key_end.as_slice()) { Some(copy_bytes(value)) } else { None }
            },
            TrieNode::Extension { prefix, child } => {
                if prefix.len() > 0 && rest_starts_with(nibbles, depth, prefix.as_slice()) {
                    self.get_recursive(child, nibbles, depth + prefix.len())
                } else {
                    None
                }
            },
            TrieNode::Branch { children, value } => {
                if depth >= nibbles.len() {
                    match value { Some(v) => Some(copy_bytes(v)), None => None }
                } else {
                    let idx = nibbles[depth] as usize;
                    proof { assert(children@.map_values(|c: Option<VHash>| opt_hash_view(c))[idx as int] == opt_hash_view(children@[idx as int])); }
                    match &children[idx] {
                        Some(c) => self.get_recursive(c, nibbles, depth + 1),
                        None => None,
                    }
                }
            },
        }
    }

    fn store_node(&mut self, node: TrieNode) -> (h: VHash)
        requires old(self).wf(),
        ensures
            final(self).wf(),
            h.0@ == node_hash_spec(node@),
            final(self).nodes@ == old(self).nodes@.push((h, node)),
            final(self).root == old(self).root,
            trie_sound(old(self).nodes@) && refs_in(node@, old(self).nodes@) && parts_ok(node@) ==> trie_sound(final(self).nodes@),
            has_hash(final(self).nodes@, h.0@),
    {
        let h = node.hash();
        let ghost old_nodes = self.nodes@;
        let ghost nv = node@;
        self.nodes.push((h, node));
        proof {
            assert forall|i: int| 0 <= i < self.nodes@.len() implies
                (#[trigger] self.nodes@[i]).0.0@ == node_hash_spec(self.nodes@[i].1@)
                    || (self.nodes@[i].0.0@ == zero_hash() && self.nodes@[i].1@ == NodeView::Empty) by {
                if i < old_nodes.len() { assert(self.nodes@[i] == old_nodes[i]); }
            }
            assert(self.nodes@.subrange(0, old_nodes.len() as int) =~= old_nodes);
            if trie_sound(old_nodes) && refs_in(nv, old_nodes) && parts_ok(nv) {
                assert forall|i: int| 0 <= i < self.nodes@.len() implies
                    refs_in((#[trigger] self.nodes@[i]).1@, self.nodes@) && parts_ok(self.nodes@[i].1@) by {
                    if i < old_nodes.len() {
                        assert(self.nodes@[i] == old_nodes[i]);
                        assert(refs_in(old_nodes[i].1@, old_nodes));
                        lemma_refs_grow(old_nodes[i].1@, old_nodes, self.nodes@);
                    } else {
                        lemma_refs_grow(nv, old_nodes, self.nodes@);
                    }
                }
                assert(self.nodes@[0] == old_nodes[0]);
            }
            assert(self.nodes@[self.nodes@.len() - 1].0.0@ == h.0@);
        }
        h
    }

    /// Inserts or replaces the value of a key; the new root is the hash of
    /// the rewritten root node.
    pub fn insert(&mut self, key: &[u8], value: Vec<u8>) -> (r: StateResult<()>)
        requires
            old(self).wf(),
            insert_defined(old(self).store(), old(self).root_view(), nibbles(key@), 0),
        ensures
            final(self).wf(),
            r is Ok,
            final(self).store().len() > old(self).store().len(),
            final(self).store().subrange(0, old(self).store().len() as int) == old(self).store(),
            final(self).root_view() == final(self).store().last().0.0@,
            trie_sound(old(self).store()) ==> trie_sound(final(self).store()),
            // Read after write: unless the node hash collided, the key now
            // holds the value and every other key holds what it held.
            trie_sound(old(self).store()) && hashes_unique(final(self).store()) ==> {
                &&& lookup(final(self).store(), final(self).root_view(), nibbles(key@), 0) == Some(value@)
                &&& forall|k2: Seq<u8>| k2 != key@ ==>
                    #[trigger] lookup(final(self).store(), final(self).root_view(), nibbles(k2), 0)
                        == lookup(old(self).store(), old(self).root_view(), nibbles(k2), 0)
            },
    {
        let nibs = key_to_nibbles(key);
        let root = self.root;
        let ghost before = self.nodes@;
        let ghost val = value@;
        let new_root = self.insert_recursive(&root, nibs.as_slice(), 0, value);
        self.root = new_root;
        proof {
            assert(nibs@.subrange(0, nibs@.len() as int) =~= nibs@);
            if trie_sound(before) && hashes_unique(self.nodes@) {
                assert forall|k2: Seq<u8>| k2 != key@ implies
                    #[trigger] lookup(self.nodes@, self.root.0@, nibbles(k2), 0) == lookup(before, root.0@, nibbles(k2), 0) by {
                    lemma_nibbles_ok(k2);
                    lemma_nibbles_injective(k2, key@);
                    assert(nibbles(k2).subrange(0, nibbles(k2).len() as int) =~= nibbles(k2));
                }
            }
        }
        Ok(())
    }

    /// Writes into a leaf: its value replaced, or the leaf split.
    #[verifier::rlimit(40)]
    fn insert_at_leaf(&mut self, node_hash: &VHash, nibbles: &[u8], depth: usize, value: Vec<u8>, key_end: Vec<u8>, old_value: Vec<u8>) -> (h: VHash)
        requires
            old(self).wf(),
            depth <= nibbles@.len(),
            nibbles_ok(nibbles@),
            store_get(old(self).nodes@, node_hash.0@) == Some(NodeView::Leaf { key_end: key_end@, value: old_value@ }),
        ensures
            final(self).wf(),
            final(self).root == old(self).root,
            final(self).nodes@.len() > old(self).nodes@.len(),
            final(self).nodes@.subrange(0, old(self).nodes@.len() as int) == old(self).nodes@,
            h == final(self).nodes@.last().0,
            trie_sound(old(self).nodes@) ==> trie_sound(final(self).nodes@),
            trie_sound(old(self).nodes@) && hashes_unique(final(self).nodes@) ==>
                written_at(old(self).nodes@, node_hash.0@, final(self).nodes@, h.0@, nibbles@, depth as int, value@),
    {
        let ghost start = self.nodes@;
        let ghost h0 = node_hash.0@;
        let ghost val = value@;
        let ghost nibs = nibbles@;
        proof { if trie_sound(start) { lemma_sound_get(start, h0); } }
        let rest = vstd::slice::slice_subrange(nibbles, depth, nibbles.len());
        let ghost r = rest@;
        proof {
            assert(r =~= nibs.subrange(depth as int, nibs.len() as int));
            assert(nibbles_ok(r));
        }
        let ghost ke = key_end@;
        let ghost ov = old_value@;
        let common = common_prefix_len(key_end.as_slice(), rest);
        if common == key_end.len() && common == rest.len() {
            proof { assert(ke =~= r); }
            let nl = TrieNode::Leaf { key_end, value };
            let h = self.store_node(nl);
            proof {
                assert(self.nodes@.subrange(0, start.len() as int) =~= start);
                if trie_sound(start) && hashes_unique(self.nodes@) {
                    let s1 = self.nodes@;
                    assert forall|n2: Seq<u8>| nibbles_ok(n2) && depth <= n2.len()
                        && n2.subrange(depth as int, n2.len() as int) != nibs.subrange(depth as int, nibs.len() as int)
                        implies #[trigger] lookup(s1, h.0@, n2, depth as int) == lookup(start, h0, n2, depth as int) by {}
                }
            }
            h
        } else {
            let ghost c = common as int;
            let ghost mut oh_v: Seq<u8> = Seq::empty();
            let ghost mut nh_v: Seq<u8> = Seq::empty();
            let ghost mut i_oh: int = 0;
            let ghost mut i_nh: int = 0;
            let mut children: [Option<VHash>; 16] = [None; 16];
            if common < key_end.len() {
                let old_leaf = TrieNode::Leaf {
                    key_end: vstd::slice::slice_to_vec(vstd::slice::slice_subrange(key_end.as_slice(), common + 1, key_end.len())),
                    value: copy_bytes(&old_value),
                };
                let idx = key_end[common] as usize;
                proof {
                    i_oh = self.nodes@.len() as int;
                    if trie_sound(start) {
                        assert(parts_ok(old_leaf@)) by {
                            assert forall|k: int| 0 <= k < old_leaf@->Leaf_key_end.len() implies #[trigger] old_leaf@->Leaf_key_end[k] < 16 by {
                                assert(old_leaf@->Leaf_key_end[k] == ke[k + c + 1]);
                            }
                        }
                    }
                }
                let oh = self.store_node(old_leaf);
                proof { oh_v = oh.0@; }
                if idx < 16 {
                    children[idx] = Some(oh);
                }
            }
            if common < rest.len() {
                let new_leaf = TrieNode::Leaf {
                    key_end: vstd::slice::slice_to_vec(vstd::slice::slice_subrange(rest, common + 1, rest.len())),
                    value: copy_bytes(&value),
                };
                let idx = rest[common] as usize;
                proof {
                    i_nh = self.nodes@.len() as int;
                    assert(new_leaf@->Leaf_key_end =~= nibs.subrange(depth + c + 1, nibs.len() as int));
                    if trie_sound(start) {
                        assert(parts_ok(new_leaf@)) by {
                            assert forall|k: int| 0 <= k < new_leaf@->Leaf_key_end.len() implies #[trigger] new_leaf@->Leaf_key_end[k] < 16 by {
                                assert(new_leaf@->Leaf_key_end[k] == nibs[depth + c + 1 + k]);
                            }
                        }
                    }
                }
                let nh = self.store_node(new_leaf);
                proof { nh_v = nh.0@; assert(rest@[common as int] == nibbles@[depth + common]); }
                children[idx] = Some(nh);
            }
            let bval = if common == rest.len() {
                Some(value)
            } else if common == key_end.len() {
                Some(old_value)
            } else {
                None
            };
            let branch = TrieNode::Branch { children, value: bval };
            let ghost ch = branch@->Branch_children;
            let ghost bv = branch@->Branch_value;
            let ghost s_b = self.nodes@;
            proof {
                assert(s_b.subrange(0, start.len() as int) =~= start);
                if trie_sound(start) {
                    assert(ch.len() == 16);
                    assert forall|k: int| 0 <= k < 16 implies #[trigger] ch[k] == (if c < ke.len() && k == ke[c] { Some(oh_v) }
                        else if c < r.len() && k == r[c] { Some(nh_v) } else { None }) by {
                        assert(ch[k] == opt_hash_view(children@[k]));
                        if c < ke.len() { assert(ke[c] < 16); }
                    }
                    if c < ke.len() { assert(s_b[i_oh].0.0@ == oh_v); }
                    if c < r.len() { assert(s_b[i_nh].0.0@ == nh_v); }
                    assert(refs_in(branch@, s_b)) by {
                        assert forall|k: int| 0 <= k < 16 && (#[trigger] ch[k]) is Some implies has_hash(s_b, ch[k].unwrap()) by {
                            if c < ke.len() && k == ke[c] { assert(s_b[i_oh].0.0@ == oh_v); } else { assert(s_b[i_nh].0.0@ == nh_v); }
                        }
                    }
                }
            }
            let ghost mut bh_v: Seq<u8> = Seq::empty();
            let ghost mut i_bh: int = 0;
            let h = if common > 0 {
                proof { i_bh = self.nodes@.len() as int; }
                let bh = self.store_node(branch);
                proof { bh_v = bh.0@; }
                let ext = TrieNode::Extension { prefix: vstd::slice::slice_to_vec(vstd::slice::slice_subrange(rest, 0, common)), child: bh };
                proof {
                    assert(ext@->Extension_prefix =~= nibs.subrange(depth as int, depth + c));
                    if trie_sound(start) {
                        assert(self.nodes@[i_bh].0.0@ == bh_v);
                        assert(parts_ok(ext@)) by {
                            assert forall|k: int| 0 <= k < ext@->Extension_prefix.len() implies #[trigger] ext@->Extension_prefix[k] < 16 by {
                                assert(ext@->Extension_prefix[k] == nibs[depth + k]);
                            }
                        }
                    }
                }
                self.store_node(ext)
            } else {
                let bh = self.store_node(branch);
                proof { bh_v = bh.0@; i_bh = self.nodes@.len() - 1; }
                bh
            };
            proof {
                let s1 = self.nodes@;
                assert(s1.subrange(0, start.len() as int) =~= start);
                if trie_sound(start) && hashes_unique(s1) {
                    assert(s1[i_bh] == (s1[i_bh].0, branch));
                    lemma_unique_get(s1, i_bh);
                    if c < ke.len() { assert(s1[i_oh] == s_b[i_oh]); lemma_unique_get(s1, i_oh); }
                    if c < r.len() { assert(s1[i_nh] == s_b[i_nh]); lemma_unique_get(s1, i_nh); }
                    assert(nibbles_ok(ke));
                    assert forall|n2: Seq<u8>| nibbles_ok(n2) && depth <= n2.len()
                        && n2.subrange(depth as int, n2.len() as int) != nibs.subrange(depth as int, nibs.len() as int)
                        implies #[trigger] lookup(s1, h.0@, n2, depth as int) == lookup(start, h0, n2, depth as int) by {
                        lemma_leaf_split(start, s1, h0, h.0@, bh_v, oh_v, nh_v, ke, ov, nibs, depth as int, val, c, ch, bv, n2);
                    }
                    lemma_leaf_split(start, s1, h0, h.0@, bh_v, oh_v, nh_v, ke, ov, nibs, depth as int, val, c, ch, bv, nibs);
                }
            }
            h
        }
    }

    /// Writes where the key leaves an extension's prefix: the extension is
    /// split around a new branch.
    #[verifier::rlimit(40)]
    fn insert_split_ext(&mut self, node_hash: &VHash, nibbles: &[u8], depth: usize, value: Vec<u8>, prefix: Vec<u8>, child: VHash) -> (h: VHash)
        requires
            old(self).wf(),
            depth <= nibbles@.len(),
            nibbles_ok(nibbles@),
            store_get(old(self).nodes@, node_hash.0@) == Some(NodeView::Extension { prefix: prefix@, child: child.0@ }),
            insert_defined(old(self).nodes@, node_hash.0@, nibbles@, depth as int),
            !(prefix@.len() > 0 && starts_with(nibbles@.subrange(depth as int, nibbles@.len() as int), prefix@)),
        ensures
            final(self).wf(),
            final(self).root == old(self).root,
            final(self).nodes@.len() > old(self).nodes@.len(),
            final(self).nodes@.subrange(0, old(self).nodes@.len() as int) == old(self).nodes@,
            h == final(self).nodes@.last().0,
            trie_sound(old(self).nodes@) ==> trie_sound(final(self).nodes@),
            trie_sound(old(self).nodes@) && hashes_unique(final(self).nodes@) ==>
                written_at(old(self).nodes@, node_hash.0@, final(self).nodes@, h.0@, nibbles@, depth as int, value@),
    {
        let ghost start = self.nodes@;
        let ghost h0 = node_hash.0@;
        let ghost val = value@;
        let ghost nibs = nibbles@;
        proof { if trie_sound(start) { lemma_sound_get(start, h0); } }
        let rest = vstd::slice::slice_subrange(nibbles, depth, nibbles.len());
        let ghost r = rest@;
        proof {
            assert(r =~= nibs.subrange(depth as int, nibs.len() as int));
            assert(nibbles_ok(r));
        }
        let ghost pre = prefix@;
        let common = common_prefix_len(prefix.as_slice(), rest);
        let ghost c = common as int;
        proof {
            // the key leaves the prefix at `c`, before either ends
            if pre.len() > 0 && starts_with(r, pre) {
                assert(c < pre.len());
                assert(r.subrange(0, pre.len() as int)[c] == pre[c]);
            }
            let c2 = choose|c2: int| 0 <= c2 < r.len() && c2 < pre.len() && r.subrange(0, c2) == pre.subrange(0, c2) && r[c2] != pre[c2];
            if c > c2 { assert(pre[c2] == r[c2]); }
            if c < c2 { assert(r.subrange(0, c2)[c] == pre.subrange(0, c2)[c]); }
            assert(c == c2);
        }
        let ghost mut eh_v: Seq<u8> = Seq::empty();
        let ghost mut i_eh: int = 0;
        let ghost mut i_nh: int = 0;
        let ghost mut nh_v: Seq<u8> = Seq::empty();
        let ghost child_v = child.0@;
        proof { if trie_sound(start) { assert(has_hash(start, child_v)); } }
        let mut children: [Option<VHash>; 16] = [None; 16];
        if common + 1 < prefix.len() {
            let ext = TrieNode::Extension {
                prefix: vstd::slice::slice_to_vec(vstd::slice::slice_subrange(prefix.as_slice(), common + 1, prefix.len())),
                child,
            };
            proof {
                i_eh = self.nodes@.len() as int;
                if trie_sound(start) {
                    assert(self.nodes@ == start);
                    assert(parts_ok(ext@)) by {
                        assert forall|k: int| 0 <= k < ext@->Extension_prefix.len() implies #[trigger] ext@->Extension_prefix[k] < 16 by {
                            assert(ext@->Extension_prefix[k] == pre[k + c + 1]);
                        }
                    }
                }
            }
            let eh = self.store_node(ext);
            proof { eh_v = eh.0@; }
            let idx = prefix[common] as usize;
            if idx < 16 {
                children[idx] = Some(eh);
            }
        } else if common < prefix.len() {
            let idx = prefix[common] as usize;
            if idx < 16 {
                children[idx] = Some(child);
            }
        }
        if common < rest.len() {
            let new_leaf = TrieNode::Leaf {
                key_end: vstd::slice::slice_to_vec(vstd::slice::slice_subrange(rest, common + 1, rest.len())),
                value,
            };
            proof {
                i_nh = self.nodes@.len() as int;
                assert(new_leaf@->Leaf_key_end =~= nibs.subrange(depth + c + 1, nibs.len() as int));
                if trie_sound(start) {
                    assert(parts_ok(new_leaf@)) by {
                        assert forall|k: int| 0 <= k < new_leaf@->Leaf_key_end.len() implies #[trigger] new_leaf@->Leaf_key_end[k] < 16 by {
                            assert(new_leaf@->Leaf_key_end[k] == nibs[depth + c + 1 + k]);
                        }
                    }
                }
            }
            let nh = self.store_node(new_leaf);
            let idx = rest[common] as usize;
            proof { nh_v = nh.0@; assert(rest@[common as int] == nibbles@[depth + common]); }
            children[idx] = Some(nh);
        }
        let branch = TrieNode::Branch { children, value: None };
        let ghost ch = branch@->Branch_children;
        let ghost s_b = self.nodes@;
        let ghost cc: Seq<u8> = if c + 1 < pre.len() { eh_v } else { child_v };
        proof {
            assert(s_b.subrange(0, start.len() as int) =~= start);
            if trie_sound(start) {
                assert(pre[c] < 16);
                assert(ch.len() == 16);
                assert forall|k: int| 0 <= k < 16 implies #[trigger] ch[k] == (if k == pre[c] { Some(cc) }
                    else if k == r[c] { Some(nh_v) } else { None }) by {
                    assert(ch[k] == opt_hash_view(children@[k]));
                }
                lemma_has_grow(start, s_b, child_v);
                assert(s_b[i_nh].0.0@ == nh_v);
                if c + 1 < pre.len() { assert(s_b[i_eh].0.0@ == eh_v); }
                assert(refs_in(branch@, s_b)) by {
                    assert forall|k: int| 0 <= k < 16 && (#[trigger] ch[k]) is Some implies has_hash(s_b, ch[k].unwrap()) by {
                        if k == pre[c] {
                            if c + 1 < pre.len() { assert(s_b[i_eh].0.0@ == eh_v); }
                        } else { assert(s_b[i_nh].0.0@ == nh_v); }
                    }
                }
            }
        }
        let ghost mut bh_v: Seq<u8> = Seq::empty();
        let ghost mut i_bh: int = 0;
        let h = if common > 0 {
            proof { i_bh = self.nodes@.len() as int; }
            let bh = self.store_node(branch);
            proof { bh_v = bh.0@; }
            let ext = TrieNode::Extension { prefix: vstd::slice::slice_to_vec(vstd::slice::slice_subrange(rest, 0, common)), child: bh };
            proof {
                assert(ext@->Extension_prefix =~= nibs.subrange(depth as int, depth + c));
                if trie_sound(start) {
                    assert(self.nodes@[i_bh].0.0@ == bh_v);
                    assert(parts_ok(ext@)) by {
                        assert forall|k: int| 0 <= k < ext@->Extension_prefix.len() implies #[trigger] ext@->Extension_prefix[k] < 16 by {
                            assert(ext@->Extension_prefix[k] == nibs[depth + k]);
                        }
                    }
                }
            }
            self.store_node(ext)
        } else {
            let bh = self.store_node(branch);
            proof { bh_v = bh.0@; i_bh = self.nodes@.len() - 1; }
            bh
        };
        proof {
            let s1 = self.nodes@;
            assert(s1.subrange(0, start.len() as int) =~= start);
            if trie_sound(start) && hashes_unique(s1) {
                assert(s1[i_bh] == (s1[i_bh].0, branch));
                lemma_unique_get(s1, i_bh);
                assert(s1[i_nh] == s_b[i_nh]);
                lemma_unique_get(s1, i_nh);
                if c + 1 < pre.len() { assert(s1[i_eh] == s_b[i_eh]); lemma_unique_get(s1, i_eh); }
                assert forall|n2: Seq<u8>| nibbles_ok(n2) && depth <= n2.len()
                    && n2.subrange(depth as int, n2.len() as int) != nibs.subrange(depth as int, nibs.len() as int)
                    implies #[trigger] lookup(s1, h.0@, n2, depth as int) == lookup(start, h0, n2, depth as int) by {
                    lemma_lookup_frame(start, s1, child_v, n2, depth + pre.len());
                    lemma_ext_split(start, s1, h0, h.0@, bh_v, cc, eh_v, nh_v, pre, child_v, nibs, depth as int, val, c, ch, n2);
                }
                lemma_lookup_frame(start, s1, child_v, nibs, depth + pre.len());
                lemma_ext_split(start, s1, h0, h.0@, bh_v, cc, eh_v, nh_v, pre, child_v, nibs, depth as int, val, c, ch, nibs);
            }
        }
        h
    }

    #[verifier::rlimit(100)]
    #[verifier::spinoff_prover]
    fn insert_recursive(&mut self, node_hash: &VHash, nibbles: &[u8], depth: usize, value: Vec<u8>) -> (h: VHash)
        requires
            old(self).wf(),
            depth <= nibbles@.len(),
            nibbles_ok(nibbles@),
            insert_defined(old(self).nodes@, node_hash.0@, nibbles@, depth as int),
        ensures
            final(self).wf(),
            final(self).root == old(self).root,
            final(self).nodes@.len() > old(self).nodes@.len(),
            final(self).nodes@.subrange(0, old(self).nodes@.len() as int) == old(self).nodes@,
            h == final(self).nodes@.last().0,
            trie_sound(old(self).nodes@) ==> trie_sound(final(self).nodes@),
            trie_sound(old(self).nodes@) && hashes_unique(final(self).nodes@) ==>
                written_at(old(self).nodes@, node_hash.0@, final(self).nodes@, h.0@, nibbles@, depth as int, value@),
        decreases nibbles@.len() - depth,
    {
        let ghost start = self.nodes@;
        let ghost h0 = node_hash.0@;
        let ghost val = value@;
        let ghost nibs = nibbles@;
        let found = self.find_node(node_hash);
        let node: TrieNode = match found {
            Some(n) => copy_node(n),
            None => TrieNode::Empty,
        };
        proof {
            if found is Some && trie_sound(start) { lemma_sound_get(start, h0); }
        }
        let rest = vstd::slice::slice_subrange(nibbles, depth, nibbles.len());
        let ghost r = rest@;
        proof {
            assert(r =~= nibs.subrange(depth as int, nibs.len() as int));
            assert(nibbles_ok(r));
        }
        match node {
            TrieNode::Empty => {
                let leaf = TrieNode::Leaf { key_end: vstd::slice::slice_to_vec(rest), value };
                let h = self.store_node(leaf);
                proof {
                    assert(self.nodes@.subrange(0, start.len() as int) =~= start);
                    if trie_sound(start) && hashes_unique(self.nodes@) {
                        let s1 = self.nodes@;
                        assert(store_get(s1, h.0@) == Some(NodeView::Leaf { key_end: r, value: val }));
                        assert forall|n2: Seq<u8>| nibbles_ok(n2) && depth <= n2.len()
                            && n2.subrange(depth as int, n2.len() as int) != nibs.subrange(depth as int, nibs.len() as int)
                            implies #[trigger] lookup(s1, h.0@, n2, depth as int) == lookup(start, h0, n2, depth as int) by {}
                    }
                }
                h
            },
            TrieNode::Leaf { key_end, value: old_value } => self.insert_at_leaf(node_hash, nibbles, depth, value, key_end, old_value),
            TrieNode::Extension { prefix, child } => {
                let ghost pre = prefix@;
                let common = common_prefix_len(prefix.as_slice(), rest);
                if common == prefix.len() && common > 0 {
                    proof {
                        assert(store_get(start, node_hash.0@) is Some);
                        assert(r.subrange(0, pre.len() as int) =~= pre);
                    }
                    let new_child = self.insert_recursive(&child, nibbles, depth + common, value);
                    let ghost mid = self.nodes@;
                    let ext = TrieNode::Extension { prefix, child: new_child };
                    proof {
                        if trie_sound(start) {
                            assert(mid[mid.len() - 1].0.0@ == new_child.0@);
                        }
                    }
                    let h = self.store_node(ext);
                    proof {
                        let s1 = self.nodes@;
                        assert(s1.subrange(0, start.len() as int) =~= start) by {
                            assert(mid.subrange(0, start.len() as int) =~= start);
                        }
                        assert(s1.subrange(0, mid.len() as int) =~= mid);
                        if trie_sound(start) && hashes_unique(s1) {
                            lemma_unique_prefix(mid, s1);
                            assert(mid[mid.len() - 1].0.0@ == new_child.0@);
                            let dc = depth + pre.len();
                            lemma_lookup_frame(mid, s1, new_child.0@, nibs, dc);
                            assert forall|n2: Seq<u8>| nibbles_ok(n2) && depth <= n2.len()
                                && n2.subrange(depth as int, n2.len() as int) != nibs.subrange(depth as int, nibs.len() as int)
                                implies #[trigger] lookup(s1, h.0@, n2, depth as int) == lookup(start, h0, n2, depth as int) by {
                                let r2 = n2.subrange(depth as int, n2.len() as int);
                                if starts_with(r2, pre) {
                                    lemma_lookup_frame(mid, s1, new_child.0@, n2, dc);
                                    assert(n2.subrange(dc, n2.len() as int) =~= r2.subrange(pre.len() as int, r2.len() as int));
                                    assert(nibs.subrange(dc, nibs.len() as int) =~= r.subrange(pre.len() as int, r.len() as int));
                                    if n2.subrange(dc, n2.len() as int) == nibs.subrange(dc, nibs.len() as int) {
                                        assert(r2 =~= r) by {
                                            assert forall|k: int| 0 <= k < r2.len() implies r2[k] == r[k] by {
                                                if k < pre.len() {
                                                    assert(r2.subrange(0, pre.len() as int)[k] == pre[k]);
                                                    assert(r.subrange(0, pre.len() as int)[k] == pre[k]);
                                                } else {
                                                    assert(r2.subrange(pre.len() as int, r2.len() as int)[k - pre.len()] == r.subrange(pre.len() as int, r.len() as int)[k - pre.len()]);
                                                }
                                            }
                                        }
                                    }
                                }
                            }
                        }
                    }
                    h
                } else {
                    proof {
                        if pre.len() > 0 && starts_with(r, pre) {
                            if common < prefix.len() {
                                assert(r.subrange(0, pre.len() as int)[common as int] == pre[common as int]);
                            }
                        }
                    }
                    self.insert_split_ext(node_hash, nibbles, depth, value, prefix, child)
                }
            },
            TrieNode::Branch { children, value: branch_value } => {
                let ghost ch0 = TrieNode::Branch { children, value: None }@->Branch_children;
                if rest.len() == 0 {
                    let nb = TrieNode::Branch { children, value: Some(value) };
                    proof {
                        if trie_sound(start) { assert(nb@->Branch_children == ch0); }
                    }
                    let h = self.store_node(nb);
                    proof {
                        let s1 = self.nodes@;
                        assert(s1.subrange(0, start.len() as int) =~= start);
                        if trie_sound(start) && hashes_unique(s1) {
                            assert forall|n2: Seq<u8>| nibbles_ok(n2) && depth <= n2.len()
                                && n2.subrange(depth as int, n2.len() as int) != nibs.subrange(depth as int, nibs.len() as int)
                                implies #[trigger] lookup(s1, h.0@, n2, depth as int) == lookup(start, h0, n2, depth as int) by {
                                if depth < n2.len() {
                                    let x = n2[depth as int] as int;
                                    if ch0[x] is Some {
                                        lemma_lookup_frame(start, s1, ch0[x].unwrap(), n2, depth + 1);
                                    }
                                } else {
                                    assert(n2.subrange(depth as int, n2.len() as int) =~= nibs.subrange(depth as int, nibs.len() as int));
                                }
                            }
                        }
                    }
                    h
                } else {
                    let idx = rest[0] as usize;
                    proof { assert(rest@[0] == nibbles@[depth as int]); }
                    let child_hash = match children[idx] {
                        Some(c) => c,
                        None => crate::primitives::types::Hash::zero(),
                    };
                    let mut new_children = children;
                    let new_child = self.insert_recursive(&child_hash, nibbles, depth + 1, value);
                    let ghost mid = self.nodes@;
                    new_children[idx] = Some(new_child);
                    let nb = TrieNode::Branch { children: new_children, value: branch_value };
                    let ghost ch1 = nb@->Branch_children;
                    proof {
                        assert(mid.subrange(0, start.len() as int) =~= start);
                        assert forall|k: int| 0 <= k < 16 implies #[trigger] ch1[k] == (if k == idx { Some(new_child.0@) } else { ch0[k] }) by {
                            assert(ch1[k] == opt_hash_view(new_children@[k]));
                            assert(ch0[k] == opt_hash_view(children@[k]));
                        }
                        if trie_sound(start) {
                            assert(mid[mid.len() - 1].0.0@ == new_child.0@);
                            assert(refs_in(nb@, mid)) by {
                                assert forall|k: int| 0 <= k < 16 && (#[trigger] ch1[k]) is Some implies has_hash(mid, ch1[k].unwrap()) by {
                                    if k != idx {
                                        assert(ch1[k] == ch0[k]);
                                        lemma_has_grow(start, mid, ch0[k].unwrap());
                                    } else {
                                        assert(mid[mid.len() - 1].0.0@ == new_child.0@);
                                    }
                                }
                            }
                        }
                    }
                    let h = self.store_node(nb);
                    proof {
                        let s1 = self.nodes@;
                        assert(s1.subrange(0, start.len() as int) =~= start);
                        assert(s1.subrange(0, mid.len() as int) =~= mid);
                        if trie_sound(start) && hashes_unique(s1) {
                            lemma_unique_prefix(mid, s1);
                            lemma_unique_prefix(start, s1);
                            assert(mid[mid.len() - 1].0.0@ == new_child.0@);
                            lemma_lookup_frame(mid, s1, new_child.0@, nibs, depth + 1);
                            lemma_unique_get(start, 0);
                            assert forall|n2: Seq<u8>| nibbles_ok(n2) && depth <= n2.len()
                                && n2.subrange(depth as int, n2.len() as int) != nibs.subrange(depth as int, nibs.len() as int)
                                implies #[trigger] lookup(s1, h.0@, n2, depth as int) == lookup(start, h0, n2, depth as int) by {
                                if depth < n2.len() {
                                    let x = n2[depth as int] as int;
                                    if x == idx {
                                        lemma_lookup_frame(mid, s1, new_child.0@, n2, depth + 1);
                                        let r2 = n2.subrange(depth as int, n2.len() as int);
                                        assert(n2.subrange(depth + 1, n2.len() as int) =~= r2.subrange(1, r2.len() as int));
                                        assert(nibs.subrange(depth + 1, nibs.len() as int) =~= r.subrange(1, r.len() as int));
                                        if n2.subrange(depth + 1, n2.len() as int) == nibs.subrange(depth + 1, nibs.len() as int) {
                                            assert(r2 =~= r) by {
                                                assert forall|k: int| 0 <= k < r2.len() implies r2[k] == r[k] by {
                                                    if k > 0 {
                                                        assert(r2.subrange(1, r2.len() as int)[k - 1] == r.subrange(1, r.len() as int)[k - 1]);
                                                    }
                                                }
                                            }
                                        }
                                    } else {
                                        assert(ch1[x] == ch0[x]);
                                        if ch0[x] is Some {
                                            lemma_lookup_frame(start, s1, ch0[x].unwrap(), n2, depth + 1);
                                        }
                                    }
                                }
                            }
                        }
                    }
                    h
                }
            },
        }
    }
}


/// The views of a list of nodes.
pub open spec fn nodes_view(ns: Seq<TrieNode>) -> Seq<NodeView> {
    ns.map_values(|n: TrieNode| n@)
}

/// Node `n` may stand under hash `h`: it hashes to `h`, or it is the
/// empty node under the zero hash (the empty trie's root).
pub open spec fn node_under(n: NodeView, h: Seq<u8>) -> bool {
    node_hash_spec(n) == h || (h == zero_hash() && n == NodeView::Empty)
}

/// What a proof's nodes say of the key whose nibbles from `depth` on are
/// still to be followed, starting at the node under `h`: `Some(Some(v))`
/// when they lead to value `v`, `Some(None)` when they show the key absent,
/// `None` when the nodes do not form such a path (a node not under the hash
/// its parent names, a node missing or left over).
pub open spec fn walk_value(nodes: Seq<NodeView>, h: Seq<u8>, nibs: Seq<u8>, depth: int) -> Option<Option<Seq<u8>>>
    decreases nodes.len(),
{
    if nodes.len() == 0 || depth < 0 || depth > nibs.len() || !node_under(nodes[0], h) {
        None
    } else {
        let rest = nibs.subrange(depth, nibs.len() as int);
        let last = nodes.len() == 1;
        match nodes[0] {
            NodeView::Empty => if last { Some(None) } else { None },
            NodeView::Leaf { key_end, value } =>
                if last { Some(if rest == key_end { Some(value) } else { None }) } else { None },
            NodeView::Extension { prefix, child } =>
                if prefix.len() > 0 && starts_with(rest, prefix) {
                    walk_value(nodes.drop_first(), child, nibs, depth + prefix.len())
                } else if last { Some(None) } else { None },
            NodeView::Branch { children, value } =>
                if depth >= nibs.len() {
                    if last { Some(value) } else { None }
                } else {
                    match children[nibs[depth] as int] {
                        Some(c) => walk_value(nodes.drop_first(), c, nibs, depth + 1),
                        None => if last { Some(None) } else { None },
                    }
                },
        }
    }
}

/// A proof checks: its nodes lead from its root along its key to exactly
/// the value it claims (or show the key absent when it claims none).
pub open spec fn proof_checks(nodes: Seq<NodeView>, key: Seq<u8>, value: Option<Seq<u8>>, root: Seq<u8>) -> bool {
    walk_value(nodes, root, nibbles(key), 0) == Some(value)
}

proof fn lemma_store_get_entry(store: Seq<(VHash, TrieNode)>, h: Seq<u8>)
    requires store_get(store, h) is Some,
    ensures exists|i: int| 0 <= i < store.len() && (#[trigger] store[i]).0.0@ == h && store[i].1@ == store_get(store, h).unwrap(),
    decreases store.len(),
{
    if store.last().0.0@ == h {
        assert(store[store.len() - 1] == store.last());
    } else {
        lemma_store_get_entry(store.drop_last(), h);
        let i = choose|i: int| 0 <= i < store.drop_last().len() && (#[trigger] store.drop_last()[i]).0.0@ == h
            && store.drop_last()[i].1@ == store_get(store.drop_last(), h).unwrap();
        assert(store[i] == store.drop_last()[i]);
    }
}

proof fn lemma_walk_path(store: Seq<(VHash, TrieNode)>, h: Seq<u8>, nibs: Seq<u8>, depth: int)
    requires
        forall|i: int| 0 <= i < store.len() ==> node_under((#[trigger] store[i]).1@, store[i].0.0@),
        proof_path(store, h, nibs, depth) is Some,
    ensures walk_value(proof_path(store, h, nibs, depth).unwrap(), h, nibs, depth) == Some(lookup(store, h, nibs, depth)),
    decreases nibs.len() - depth,
{
    let p = proof_path(store, h, nibs, depth).unwrap();
    lemma_store_get_entry(store, h);
    let n = store_get(store, h).unwrap();
    let i = choose|i: int| 0 <= i < store.len() && (#[trigger] store[i]).0.0@ == h && store[i].1@ == n;
    assert(node_under(n, h));
    let rest = nibs.subrange(depth, nibs.len() as int);
    match n {
        NodeView::Extension { prefix, child } => {
            if prefix.len() > 0 && starts_with(rest, prefix) {
                lemma_walk_path(store, child, nibs, depth + prefix.len());
                let q = proof_path(store, child, nibs, depth + prefix.len()).unwrap();
                assert(p == seq![n] + q);
                assert(p.drop_first() =~= q);
            } else {
                assert(p == seq![n]);
            }
        },
        NodeView::Branch { children, value } => {
            if depth < nibs.len() {
                match children[nibs[depth] as int] {
                    Some(c) => {
                        lemma_walk_path(store, c, nibs, depth + 1);
                        let q = proof_path(store, c, nibs, depth + 1).unwrap();
                        assert(p == seq![n] + q);
                        assert(p.drop_first() =~= q);
                    },
                    None => { assert(p == seq![n]); },
                }
            } else {
                assert(p == seq![n]);
            }
        },
        _ => { assert(p == seq![n]); },
    }
}

/// A proof the trie gives for a key checks: its nodes lead from the root
/// along the key to the value the trie holds for it (or show it absent).
pub proof fn lemma_prove_then_verify(t: MerkleTrie, key: Seq<u8>)
    requires
        t.wf(),
        proof_path(t.store(), t.root_view(), nibbles(key), 0) is Some,
    ensures
        proof_checks(proof_path(t.store(), t.root_view(), nibbles(key), 0).unwrap(), key,
            lookup(t.store(), t.root_view(), nibbles(key), 0), t.root_view()),
{
    let store = t.store();
    assert forall|i: int| 0 <= i < store.len() implies node_under((#[trigger] store[i]).1@, store[i].0.0@) by {}
    lemma_walk_path(store, t.root_view(), nibbles(key), 0);
}

/// The root hash after deleting along the nibbles from `depth` on, starting
/// at node `h`, or `None` when a node on the way is missing: a leaf with the
/// rest of the key becomes the zero hash, a branch is stored anew without
/// the value or with the rewritten child (dropped when it became zero), and
/// an extension on the key's path is stored anew over its rewritten child
/// (or becomes the zero hash with it).
pub open spec fn delete_result(store: Seq<(VHash, TrieNode)>, h: Seq<u8>, nibs: Seq<u8>, depth: int) -> Option<Seq<u8>>
    decreases nibs.len() - depth,
{
    if depth < 0 || depth > nibs.len() {
        None
    } else {
        match store_get(store, h) {
            None => None,
            Some(NodeView::Leaf { key_end, .. }) =>
                if nibs.subrange(depth, nibs.len() as int) == key_end { Some(zero_hash()) } else { Some(h) },
            Some(NodeView::Branch { children, value }) =>
                if depth >= nibs.len() {
                    Some(node_hash_spec(NodeView::Branch { children, value: None }))
                } else {
                    match children[nibs[depth] as int] {
                        Some(c) => match delete_result(store, c, nibs, depth + 1) {
                            None => None,
                            Some(nc) => Some(node_hash_spec(NodeView::Branch {
                                children: children.update(nibs[depth] as int, if nc == zero_hash() { None } else { Some(nc) }),
                                value,
                            })),
                        },
                        None => Some(node_hash_spec(NodeView::Branch { children, value })),
                    }
                },
            Some(NodeView::Extension { prefix, child }) =>
                if prefix.len() > 0 && starts_with(nibs.subrange(depth, nibs.len() as int), prefix) {
                    match delete_result(store, child, nibs, depth + prefix.len()) {
                        None => None,
                        Some(nc) => if nc == zero_hash() { Some(zero_hash()) }
                            else { Some(node_hash_spec(NodeView::Extension { prefix, child: nc })) },
                    }
                } else {
                    Some(h)
                },
            Some(_) => Some(h),
        }
    }
}

impl MerkleTrie {
    /// Deletes a key (without compacting nodes): a leaf that holds it
    /// becomes the zero hash, a branch loses the child or value on its path.
    pub fn delete(&mut self, key: &[u8]) -> (r: StateResult<()>)
        requires old(self).wf(),
        ensures
            final(self).wf(),
            match delete_result(old(self).store(), old(self).root_view(), nibbles(key@), 0) {
                Some(x) => r is Ok && final(self).root_view() == x,
                None => r is Err && final(self).root_view() == old(self).root_view(),
            },
            final(self).store().len() >= old(self).store().len(),
            final(self).store().subrange(0, old(self).store().len() as int) == old(self).store(),
            trie_sound(old(self).store()) ==> trie_sound(final(self).store()),
            // Read after delete: unless the node hash collided, the key is
            // gone and every other key holds what it held.
            trie_sound(old(self).store()) && hashes_unique(final(self).store()) && r is Ok ==> {
                &&& lookup(final(self).store(), final(self).root_view(), nibbles(key@), 0) is None
                &&& forall|k2: Seq<u8>| k2 != key@ ==>
                    #[trigger] lookup(final(self).store(), final(self).root_view(), nibbles(k2), 0)
                        == lookup(old(self).store(), old(self).root_view(), nibbles(k2), 0)
            },
    {
        let nibs = key_to_nibbles(key);
        let root = self.root;
        let ghost before = self.nodes@;
        match self.delete_recursive(&root, nibs.as_slice(), 0) {
            Ok(h) => {
                self.root = h;
                proof {
                    assert(nibs@.subrange(0, nibs@.len() as int) =~= nibs@);
                    if trie_sound(before) && hashes_unique(self.nodes@) {
                        assert forall|k2: Seq<u8>| k2 != key@ implies
                            #[trigger] lookup(self.nodes@, self.root.0@, nibbles(k2), 0) == lookup(before, root.0@, nibbles(k2), 0) by {
                            lemma_nibbles_ok(k2);
                            lemma_nibbles_injective(k2, key@);
                            assert(nibbles(k2).subrange(0, nibbles(k2).len() as int) =~= nibbles(k2));
                        }
                    }
                }
                Ok(())
            },
            Err(e) => Err(e),
        }
    }

    #[verifier::rlimit(60)]
    #[verifier::spinoff_prover]
    fn delete_recursive(&mut self, node_hash: &VHash, nibbles: &[u8], depth: usize) -> (r: StateResult<VHash>)
        requires old(self).wf(), depth <= nibbles@.len(), nibbles_ok(nibbles@),
        ensures
            final(self).wf(),
            final(self).root == old(self).root,
            final(self).nodes@.len() >= old(self).nodes@.len(),
            final(self).nodes@.subrange(0, old(self).nodes@.len() as int) == old(self).nodes@,
            match delete_result(old(self).nodes@, node_hash.0@, nibbles@, depth as int) {
                Some(x) => r matches Ok(h) && h.0@ == x,
                None => r is Err,
            },
            trie_sound(old(self).nodes@) ==> trie_sound(final(self).nodes@),
            trie_sound(old(self).nodes@) ==> (r matches Ok(h) ==> has_hash(final(self).nodes@, h.0@)),
            trie_sound(old(self).nodes@) && hashes_unique(final(self).nodes@) ==>
                (r matches Ok(h) ==> erased_at(old(self).nodes@, node_hash.0@, final(self).nodes@, h.0@, nibbles@, depth as int)),
        decreases nibbles@.len() - depth,
    {
        let ghost start = self.nodes@;
        let ghost h0 = node_hash.0@;
        let ghost nibs = nibbles@;
        let ghost r = nibs.subrange(depth as int, nibs.len() as int);
        let node: TrieNode = match self.find_node(node_hash) {
            Some(n) => copy_node(n),
            None => { return Err(StateError::NotFound("Node not found".to_owned())); },
        };
        proof {
            assert(start.subrange(0, start.len() as int) =~= start);
            lemma_store_get_entry(start, h0);
            if trie_sound(start) { lemma_sound_get(start, h0); }
        }
        match node {
            TrieNode::Empty => Ok(*node_hash),
            TrieNode::Leaf { key_end, value: _ } => {
                let rest = vstd::slice::slice_subrange(nibbles, depth, nibbles.len());
                if bytes_eq(rest, key_end.as_slice()) {
                    let z = crate::primitives::types::Hash::zero();
                    assert(z.0@ =~= zero_hash());
                    proof {
                        if trie_sound(start) {
                            assert(start[0].0.0@ == z.0@);
                            if hashes_unique(start) {
                                lemma_unique_get(start, 0);
                                assert forall|n2: Seq<u8>| nibbles_ok(n2) && depth <= n2.len()
                                    && n2.subrange(depth as int, n2.len() as int) != r
                                    implies #[trigger] lookup(start, z.0@, n2, depth as int) == lookup(start, h0, n2, depth as int) by {
                                    assert(rest@ =~= r);
                                }
                            }
                        }
                    }
                    Ok(z)
                } else {
                    Ok(*node_hash)
                }
            },
            TrieNode::Branch { children, value } => {
                let ghost cv = children@.map_values(|c: Option<VHash>| opt_hash_view(c));
                if depth >= nibbles.len() {
                    let nb = TrieNode::Branch { children, value: None };
                    proof { assert(nb@->Branch_children == cv); }
                    let h = self.store_node(nb);
                    proof {
                        let s1 = self.nodes@;
                        assert(s1.subrange(0, start.len() as int) =~= start);
                        if trie_sound(start) && hashes_unique(s1) {
                            assert forall|n2: Seq<u8>| nibbles_ok(n2) && depth <= n2.len()
                                && n2.subrange(depth as int, n2.len() as int) != r
                                implies #[trigger] lookup(s1, h.0@, n2, depth as int) == lookup(start, h0, n2, depth as int) by {
                                if depth < n2.len() {
                                    let x = n2[depth as int] as int;
                                    if cv[x] is Some {
                                        lemma_lookup_frame(start, s1, cv[x].unwrap(), n2, depth + 1);
                                    }
                                } else {
                                    assert(n2.subrange(depth as int, n2.len() as int) =~= r);
                                }
                            }
                        }
                    }
                    Ok(h)
                } else {
                    let idx = nibbles[depth] as usize;
                    let mut new_children = children;
                    proof { assert(cv[idx as int] == opt_hash_view(children@[idx as int])); }
                    let ghost mut nc_v: Seq<u8> = Seq::empty();
                    match children[idx] {
                        Some(child) => {
                            match self.delete_recursive(&child, nibbles, depth + 1) {
                                Ok(nc) => {
                                    proof { nc_v = nc.0@; }
                                    let z = crate::primitives::types::Hash::zero();
                                    proof { assert(z.0@ =~= zero_hash()); }
                                    if nc == z {
                                        new_children[idx] = None;
                                        proof {
                                            assert(nc.0@ =~= zero_hash());
                                            assert(new_children@.map_values(|c: Option<VHash>| opt_hash_view(c)) =~= cv.update(idx as int, None));
                                        }
                                    } else {
                                        new_children[idx] = Some(nc);
                                        proof {
                                            assert(nc.0@ != zero_hash());
                                            assert(new_children@.map_values(|c: Option<VHash>| opt_hash_view(c)) =~= cv.update(idx as int, Some(nc.0@)));
                                        }
                                    }
                                },
                                Err(e) => { return Err(e); },
                            }
                        },
                        None => {
                            proof { assert(new_children@.map_values(|c: Option<VHash>| opt_hash_view(c)) =~= cv); }
                        },
                    }
                    let ghost mid = self.nodes@;
                    let nb = TrieNode::Branch { children: new_children, value };
                    let ghost ch1 = nb@->Branch_children;
                    proof {
                        assert(mid.subrange(0, start.len() as int) =~= start);
                        if trie_sound(start) {
                            assert(refs_in(nb@, mid)) by {
                                assert forall|k: int| 0 <= k < 16 && (#[trigger] ch1[k]) is Some implies has_hash(mid, ch1[k].unwrap()) by {
                                    if k != idx || cv[idx as int] is None {
                                        assert(ch1[k] == cv[k]);
                                        lemma_has_grow(start, mid, cv[k].unwrap());
                                    }
                                }
                            }
                        }
                    }
                    let h = self.store_node(nb);
                    proof {
                        let s1 = self.nodes@;
                        assert(s1.subrange(0, start.len() as int) =~= start) by {
                            assert(mid.subrange(0, start.len() as int) =~= start);
                        }
                        assert(s1.subrange(0, mid.len() as int) =~= mid);
                        if trie_sound(start) && hashes_unique(s1) {
                            lemma_unique_prefix(mid, s1);
                            lemma_unique_prefix(start, s1);
                            lemma_unique_get(mid, 0);
                            assert forall|n2: Seq<u8>| nibbles_ok(n2) && depth <= n2.len()
                                && n2.subrange(depth as int, n2.len() as int) != r
                                implies #[trigger] lookup(s1, h.0@, n2, depth as int) == lookup(start, h0, n2, depth as int) by {
                                if depth < n2.len() {
                                    let x = n2[depth as int] as int;
                                    if x == idx && cv[idx as int] is Some {
                                        let r2 = n2.subrange(depth as int, n2.len() as int);
                                        assert(n2.subrange(depth + 1, n2.len() as int) =~= r2.subrange(1, r2.len() as int));
                                        assert(nibs.subrange(depth + 1, nibs.len() as int) =~= r.subrange(1, r.len() as int));
                                        if n2.subrange(depth + 1, n2.len() as int) == nibs.subrange(depth + 1, nibs.len() as int) {
                                            assert(r2 =~= r) by {
                                                assert forall|k: int| 0 <= k < r2.len() implies r2[k] == r[k] by {
                                                    if k > 0 {
                                                        assert(r2.subrange(1, r2.len() as int)[k - 1] == r.subrange(1, r.len() as int)[k - 1]);
                                                    }
                                                }
                                            }
                                        }
                                        if nc_v != zero_hash() {
                                            lemma_lookup_frame(mid, s1, nc_v, n2, depth + 1);
                                        }
                                    } else if cv[x] is Some {
                                        assert(ch1[x] == cv[x]);
                                        lemma_lookup_frame(start, s1, cv[x].unwrap(), n2, depth + 1);
                                    }
                                }
                            }
                            if cv[idx as int] is Some && nc_v != zero_hash() {
                                lemma_lookup_frame(mid, s1, nc_v, nibs, depth + 1);
                            }
                        }
                    }
                    Ok(h)
                }
            },
            TrieNode::Extension { prefix, child } => {
                let ghost pre = prefix@;
                if prefix.len() > 0 && rest_starts_with(nibbles, depth, prefix.as_slice()) {
                    let n: usize = nibbles.len();
                    assert(prefix@.len() <= n - depth);
                    let dc: usize = depth + prefix.len();
                    match self.delete_recursive(&child, nibbles, dc) {
                        Ok(nc) => {
                            let ghost mid = self.nodes@;
                            let z = crate::primitives::types::Hash::zero();
                            proof { assert(z.0@ =~= zero_hash()); }
                            proof {
                                assert(mid.subrange(0, start.len() as int) =~= start);
                                assert(r.subrange(0, pre.len() as int) == pre);
                            }
                            if nc == z {
                                proof {
                                    if trie_sound(start) {
                                        assert(mid[0].0.0@ == z.0@);
                                        if hashes_unique(mid) {
                                            lemma_unique_get(mid, 0);
                                            assert forall|n2: Seq<u8>| nibbles_ok(n2) && depth <= n2.len()
                                                && n2.subrange(depth as int, n2.len() as int) != r
                                                implies #[trigger] lookup(mid, z.0@, n2, depth as int) == lookup(start, h0, n2, depth as int) by {
                                                let r2 = n2.subrange(depth as int, n2.len() as int);
                                                if starts_with(r2, pre) {
                                                    assert(n2.subrange(dc as int, n2.len() as int) =~= r2.subrange(pre.len() as int, r2.len() as int));
                                                    assert(nibs.subrange(dc as int, nibs.len() as int) =~= r.subrange(pre.len() as int, r.len() as int));
                                                    if n2.subrange(dc as int, n2.len() as int) == nibs.subrange(dc as int, nibs.len() as int) {
                                                        assert(r2 =~= r) by {
                                                            assert forall|k: int| 0 <= k < r2.len() implies r2[k] == r[k] by {
                                                                if k < pre.len() {
                                                                    assert(r2.subrange(0, pre.len() as int)[k] == pre[k]);
                                                                    assert(r.subrange(0, pre.len() as int)[k] == pre[k]);
                                                                } else {
                                                                    assert(r2.subrange(pre.len() as int, r2.len() as int)[k - pre.len()] == r.subrange(pre.len() as int, r.len() as int)[k - pre.len()]);
                                                                }
                                                            }
                                                        }
                                                    }
                                                    assert(lookup(mid, z.0@, n2, dc as int) is None);
                                                }
                                            }
                                        }
                                    }
                                }
                                Ok(z)
                            } else {
                                let ext = TrieNode::Extension { prefix, child: nc };
                                let h = self.store_node(ext);
                                proof {
                                    let s1 = self.nodes@;
                                    assert(s1.subrange(0, start.len() as int) =~= start) by {
                                        assert(mid.subrange(0, start.len() as int) =~= start);
                                    }
                                    assert(s1.subrange(0, mid.len() as int) =~= mid);
                                    if trie_sound(start) && hashes_unique(s1) {
                                        lemma_unique_prefix(mid, s1);
                                        lemma_lookup_frame(mid, s1, nc.0@, nibs, dc as int);
                                        assert forall|n2: Seq<u8>| nibbles_ok(n2) && depth <= n2.len()
                                            && n2.subrange(depth as int, n2.len() as int) != r
                                            implies #[trigger] lookup(s1, h.0@, n2, depth as int) == lookup(start, h0, n2, depth as int) by {
                                            let r2 = n2.subrange(depth as int, n2.len() as int);
                                            if starts_with(r2, pre) {
                                                lemma_lookup_frame(mid, s1, nc.0@, n2, dc as int);
                                                assert(n2.subrange(dc as int, n2.len() as int) =~= r2.subrange(pre.len() as int, r2.len() as int));
                                                assert(nibs.subrange(dc as int, nibs.len() as int) =~= r.subrange(pre.len() as int, r.len() as int));
                                                if n2.subrange(dc as int, n2.len() as int) == nibs.subrange(dc as int, nibs.len() as int) {
                                                    assert(r2 =~= r) by {
                                                        assert forall|k: int| 0 <= k < r2.len() implies r2[k] == r[k] by {
                                                            if k < pre.len() {
                                                                assert(r2.subrange(0, pre.len() as int)[k] == pre[k]);
                                                                assert(r.subrange(0, pre.len() as int)[k] == pre[k]);
                                                            } else {
                                                                assert(r2.subrange(pre.len() as int, r2.len() as int)[k - pre.len()] == r.subrange(pre.len() as int, r.len() as int)[k - pre.len()]);
                                                            }
                                                        }
                                                    }
                                                }
                                            }
                                        }
                                    }
                                }
                                Ok(h)
                            }
                        },
                        Err(e) => Err(e),
                    }
                } else {
                    Ok(*node_hash)
                }
            },
        }
    }

    /// A proof for a key: the nodes on its path from the root, its value
    /// and the root; `None` when a node on the path is missing.
    pub fn prove(&self, key: &[u8]) -> (r: Option<MerkleProof>)
        ensures
            match proof_path(self.store(), self.root_view(), nibbles(key@), 0) {
                Some(p) => r matches Some(pr) && nodes_view(pr.nodes@) == p && pr.key@ == key@
                    && pr.root.0@ == self.root_view()
                    && (match lookup(self.store(), self.root_view(), nibbles(key@), 0) {
                        Some(v) => pr.value matches Some(x) && x@ == v,
                        None => pr.value is None,
                    }),
                None => r is None,
            },
    {
        let nibs = key_to_nibbles(key);
        let mut proof_nodes: Vec<TrieNode> = Vec::new();
        if self.prove_recursive(&self.root, nibs.as_slice(), 0, &mut proof_nodes) {
            assert(nodes_view(proof_nodes@) =~= Seq::<NodeView>::empty() + nodes_view(proof_nodes@));
            Some(MerkleProof {
                key: vstd::slice::slice_to_vec(key),
                value: self.get(key),
                nodes: proof_nodes,
                root: self.root,
            })
        } else {
            None
        }
    }

    fn prove_recursive(&self, node_hash: &VHash, nibbles: &[u8], depth: usize, proof: &mut Vec<TrieNode>) -> (r: bool)
        requires depth <= nibbles@.len(), nibbles_ok(nibbles@),
        ensures
            match proof_path(self.nodes@, node_hash.0@, nibbles@, depth as int) {
                Some(p) => r && nodes_view(final(proof)@) == nodes_view(old(proof)@) + p,
                None => !r,
            },
        decreases nibbles@.len() - depth,
    {
        let n: usize = nibbles.len();
        let node = match self.find_node(node_hash) {
            Some(x) => x,
            None => { return false; },
        };
        let ghost before = proof@;
        proof.push(copy_node(node));
        proof {
            assert(nodes_view(proof@) =~= nodes_view(before).push(node@));
        }
        match node {
            TrieNode::Extension { prefix, child } => {
                if prefix.len() > 0 && rest_starts_with(nibbles, depth, prefix.as_slice()) {
                    let ghost mid = proof@;
                    let ok = self.prove_recursive(child, nibbles, depth + prefix.len(), proof);
                    proof {
                        if ok {
                            let p = proof_path(self.nodes@, child.0@, nibbles@, depth + prefix@.len());
                            assert(nodes_view(proof@) =~= nodes_view(before) + (seq![node@] + p.unwrap()));
                        }
                    }
                    ok
                } else {
                    proof { assert(nodes_view(proof@) =~= nodes_view(before) + seq![node@]); }
                    true
                }
            },
            TrieNode::Branch { children, value: _ } => {
                if depth < nibbles.len() {
                    let idx = nibbles[depth] as usize;
                    proof { assert(children@.map_values(|c: Option<VHash>| opt_hash_view(c))[idx as int] == opt_hash_view(children@[idx as int])); }
                    match &children[idx] {
                        Some(c) => {
                            let ok = self.prove_recursive(c, nibbles, depth + 1, proof);
                            proof {
                                if ok {
                                    let p = proof_path(self.nodes@, c.0@, nibbles@, depth + 1);
                                    assert(nodes_view(proof@) =~= nodes_view(before) + (seq![node@] + p.unwrap()));
                                }
                            }
                            ok
                        },
                        None => {
                            proof { assert(nodes_view(proof@) =~= nodes_view(before) + seq![node@]); }
                            true
                        },
                    }
                } else {
                    proof { assert(nodes_view(proof@) =~= nodes_view(before) + seq![node@]); }
                    true
                }
            },
            _ => {
                proof { assert(nodes_view(proof@) =~= nodes_view(before) + seq![node@]); }
                true
            },
        }
    }

    /// Checks a proof: from its root, each node must be the one its parent
    /// names, the nodes must follow the key's nibbles, and where they end
    /// they must give exactly the value the proof claims.
    pub fn verify_proof(proof: &MerkleProof) -> (r: bool)
        ensures
            r == proof_checks(nodes_view(proof.nodes@), proof.key@,
                match &proof.value { Some(v) => Some(v@), None => None }, proof.root.0@),
    {
        let nibs = key_to_nibbles(proof.key.as_slice());
        let ghost all = nodes_view(proof.nodes@);
        let ghost claimed: Option<Seq<u8>> = match &proof.value { Some(v) => Some(v@), None => None };
        let n: usize = nibs.len();
        let mut h = proof.root;
        let mut depth: usize = 0;
        let mut i: usize = 0;
        let zero = crate::primitives::types::Hash::zero();
        proof { assert(zero.0@ =~= zero_hash()); assert(all.skip(0) =~= all); }
        let found: Option<Option<&Vec<u8>>>;
        loop
            invariant
                n == nibs@.len(),
                nibs@ == nibbles(proof.key@),
                nibbles_ok(nibs@),
                zero.0@ == zero_hash(),
                all == nodes_view(proof.nodes@),
                i <= proof.nodes@.len(),
                depth <= n,
                walk_value(all, proof.root.0@, nibs@, 0) == walk_value(all.skip(i as int), h.0@, nibs@, depth as int),
            ensures
                walk_value(all, proof.root.0@, nibs@, 0) == match found {
                    Some(Some(v)) => Some(Some(v@)),
                    Some(None) => Some(None::<Seq<u8>>),
                    None => None::<Option<Seq<u8>>>,
                },
            decreases proof.nodes@.len() - i,
        {
            if i >= proof.nodes.len() {
                found = None;
                break;
            }
            let node = &proof.nodes[i];
            let ghost ns = all.skip(i as int);
            proof {
                assert(ns[0] == node@);
                assert(ns.drop_first() =~= all.skip(i + 1));
            }
            let nh = node.hash();
            let is_empty = match node { TrieNode::Empty => true, _ => false };
            if !(nh == h || (h == zero && is_empty)) {
                proof { if h.0@ == zero_hash() && node@ == NodeView::Empty { assert(is_empty); } }
                found = None;
                break;
            }
            let last = i + 1 == proof.nodes.len();
            let rest = vstd::slice::slice_subrange(nibs.as_slice(), depth, n);
            match node {
                TrieNode::Empty => {
                    found = if last { Some(None) } else { None };
                    break;
                },
                TrieNode::Leaf { key_end, value } => {
                    if last {
                        found = if bytes_eq(rest, key_end.as_slice()) { Some(Some(value)) } else { Some(None) };
                    } else {
                        found = None;
                    }
                    break;
                },
                TrieNode::Extension { prefix, child } => {
                    if prefix.len() > 0 && rest_starts_with(nibs.as_slice(), depth, prefix.as_slice()) {
                        assert(prefix@.len() <= n - depth);
                        h = *child;
                        depth = depth + prefix.len();
                        i = i + 1;
                    } else {
                        found = if last { Some(None) } else { None };
                        break;
                    }
                },
                TrieNode::Branch { children, value } => {
                    if depth >= n {
                        found = if last { match value { Some(v) => Some(Some(v)), None => Some(None) } } else { None };
                        break;
                    }
                    let idx = nibs[depth] as usize;
                    proof { assert(children@.map_values(|c: Option<VHash>| opt_hash_view(c))[idx as int] == opt_hash_view(children@[idx as int])); }
                    match &children[idx] {
                        Some(c) => {
                            h = *c;
                            depth = depth + 1;
                            i = i + 1;
                        },
                        None => {
                            found = if last { Some(None) } else { None };
                            break;
                        },
                    }
                },
            }
        }
        match found {
            Some(Some(v)) => match &proof.value { Some(pv) => bytes_eq(v.as_slice(), pv.as_slice()), None => false },
            Some(None) => proof.value.is_none(),
            None => false,
        }
    }

    /// Whether `insert` can take this key: no extension on its path holds
    /// more nibbles than the key has left.
    pub fn can_insert(&self, key: &[u8]) -> (r: bool)
        ensures r == insert_defined(self.store(), self.root_view(), nibbles(key@), 0),
    {
        let nibs = key_to_nibbles(key);
        self.can_insert_from(&self.root, nibs.as_slice(), 0)
    }

    fn can_insert_from(&self, node_hash: &VHash, nibbles: &[u8], depth: usize) -> (r: bool)
        requires depth <= nibbles@.len(), nibbles_ok(nibbles@),
        ensures r == insert_defined(self.nodes@, node_hash.0@, nibbles@, depth as int),
        decreases nibbles@.len() - depth,
    {
        let node = match self.find_node(node_hash) {
            Some(n) => n,
            None => { return true; },
        };
        match node {
            TrieNode::Extension { prefix, child } => {
                if prefix.len() > 0 && rest_starts_with(nibbles, depth, prefix.as_slice()) {
                    let n: usize = nibbles.len();
                    assert(prefix@.len() <= n - depth);
                    self.can_insert_from(child, nibbles, depth + prefix.len())
                } else {
                    let rest = vstd::slice::slice_subrange(nibbles, depth, nibbles.len());
                    let cl = common_prefix_len(rest, prefix.as_slice());
                    let ok = cl < rest.len() && cl < prefix.len();
                    proof {
                        let rs = nibbles@.subrange(depth as int, nibbles@.len() as int);
                        assert(rest@ == rs);
                        if ok {
                            assert(rs.subrange(0, cl as int) =~= prefix@.subrange(0, cl as int));
                            assert(0 <= cl < rs.len() && cl < prefix@.len() && rs.subrange(0, cl as int) == prefix@.subrange(0, cl as int) && rs[cl as int] != prefix@[cl as int]);
                        } else {
                            assert forall|c: int| !(0 <= c < rs.len() && c < prefix@.len() && rs.subrange(0, c) == prefix@.subrange(0, c) && rs[c] != prefix@[c]) by {
                                if 0 <= c < rs.len() && c < prefix@.len() && rs.subrange(0, c) == prefix@.subrange(0, c) && rs[c] != prefix@[c] {
                                    if c < cl {
                                        assert(rest@[c] == prefix@[c]);
                                    } else {
                                        assert(cl < rs.len() && cl < prefix@.len());
                                        assert(rs.subrange(0, c)[cl as int] == prefix@.subrange(0, c)[cl as int]);
                                    }
                                }
                            }
                        }
                    }
                    ok
                }
            },
            TrieNode::Branch { children, value } => {
                if depth < nibbles.len() {
                    let idx = nibbles[depth] as usize;
                    proof { assert(children@.map_values(|c: Option<VHash>| opt_hash_view(c))[idx as int] == opt_hash_view(children@[idx as int])); }
                    match &children[idx] {
                        Some(c) => self.can_insert_from(c, nibbles, depth + 1),
                        None => {
                            let z = crate::primitives::types::Hash::zero();
                            self.can_insert_from(&z, nibbles, depth + 1)
                        },
                    }
                } else {
                    true
                }
            },
            _ => true,
        }
    }
}

impl Default for MerkleTrie {
    fn default() -> (t: Self)
        ensures t.wf(), t.root_view() == zero_hash(), store_get(t.store(), zero_hash()) == Some(NodeView::Empty),
    {
        MerkleTrie::new()
    }
}

/// The length of the common prefix of two byte strings.
pub open spec fn common_len_spec(a: Seq<u8>, b: Seq<u8>) -> int
    decreases a.len(),
{
    if a.len() == 0 || b.len() == 0 || a[0] != b[0] { 0 } else { 1 + common_len_spec(a.drop_first(), b.drop_first()) }
}

fn common_prefix_len(a: &[u8], b: &[u8]) -> (r: usize)
    ensures
        r <= a@.len() && r <= b@.len(),
        forall|k: int| 0 <= k < r ==> a@[k] == b@[k],
        r < a@.len() && r < b@.len() ==> a@[r as int] != b@[r as int],
{
    let mut i: usize = 0;
    while i < a.len() && i < b.len() && a[i] == b[i]
        invariant
            i <= a@.len() && i <= b@.len(),
            forall|k: int| 0 <= k < i ==> a@[k] == b@[k],
        decreases a@.len() - i,
    {
        i = i + 1;
    }
    i
}

/// Inserting along these nibbles from node `h` stays within the slices it
/// reads: a key that ends inside an extension's prefix is not supported.
pub open spec fn insert_defined(store: Seq<(VHash, TrieNode)>, h: Seq<u8>, nibs: Seq<u8>, depth: int) -> bool
    decreases nibs.len() - depth,
{
    if depth < 0 || depth > nibs.len() {
        false
    } else {
        let rest = nibs.subrange(depth, nibs.len() as int);
        match store_get(store, h) {
            Some(NodeView::Extension { prefix, child }) =>
                if prefix.len() > 0 && starts_with(rest, prefix) {
                    insert_defined(store, child, nibs, depth + prefix.len())
                } else {
                    exists|c: int| 0 <= c < rest.len() && c < prefix.len() && rest.subrange(0, c) == prefix.subrange(0, c) && rest[c] != prefix[c]
                },
            Some(NodeView::Branch { children, value }) =>
                if depth < nibs.len() {
                    match children[nibs[depth] as int] {
                        Some(c) => insert_defined(store, c, nibs, depth + 1),
                        None => insert_defined(store, zero_hash(), nibs, depth + 1),
                    }
                } else {
                    true
                },
            _ => true,
        }
    }
}


/// Some entry of the store sits under hash `h`.
pub open spec fn has_hash(store: Seq<(VHash, TrieNode)>, h: Seq<u8>) -> bool {
    exists|i: int| 0 <= i < store.len() && (#[trigger] store[i]).0.0@ == h
}

/// Every hash that node `n` names sits in the store.
pub open spec fn refs_in(n: NodeView, store: Seq<(VHash, TrieNode)>) -> bool {
    match n {
        NodeView::Extension { prefix, child } => has_hash(store, child),
        NodeView::Branch { children, value } =>
            children.len() == 16 && forall|k: int| 0 <= k < 16 && (#[trigger] children[k]) is Some ==> has_hash(store, children[k].unwrap()),
        _ => true,
    }
}

/// The key parts a node holds are nibbles.
pub open spec fn parts_ok(n: NodeView) -> bool {
    match n {
        NodeView::Leaf { key_end, value } => nibbles_ok(key_end),
        NodeView::Extension { prefix, child } => nibbles_ok(prefix),
        _ => true,
    }
}

/// A store as a trie made by `new` and `insert` keeps it: the empty node
/// first, under the zero hash, every hash a node names present, and every
/// key part a nibble string.
pub open spec fn trie_sound(store: Seq<(VHash, TrieNode)>) -> bool {
    &&& store.len() > 0
    &&& store[0].0.0@ == zero_hash()
    &&& store[0].1@ == NodeView::Empty
    &&& forall|i: int| 0 <= i < store.len() ==> refs_in((#[trigger] store[i]).1@, store) && parts_ok(store[i].1@)
}

/// No two entries hold different nodes under one hash: the store met no
/// collision of the node hash.
pub open spec fn hashes_unique(store: Seq<(VHash, TrieNode)>) -> bool {
    forall|i: int, j: int| 0 <= i < store.len() && 0 <= j < store.len() && (#[trigger] store[i]).0.0@ == (#[trigger] store[j]).0.0@
        ==> store[i].1@ == store[j].1@
}

/// After writing `value` along `nibs` from `depth` at node `h0` of `s0`,
/// giving node `h1` of `s1`: that path leads to `value`, and every other
/// path from `depth` leads where it led before.
pub open spec fn written_at(s0: Seq<(VHash, TrieNode)>, h0: Seq<u8>, s1: Seq<(VHash, TrieNode)>, h1: Seq<u8>,
    nibs: Seq<u8>, depth: int, value: Seq<u8>) -> bool
{
    &&& lookup(s1, h1, nibs, depth) == Some(value)
    &&& forall|n2: Seq<u8>| nibbles_ok(n2) && depth <= n2.len()
            && n2.subrange(depth, n2.len() as int) != nibs.subrange(depth, nibs.len() as int)
            ==> #[trigger] lookup(s1, h1, n2, depth) == lookup(s0, h0, n2, depth)
}

proof fn lemma_store_get_has(store: Seq<(VHash, TrieNode)>, i: int)
    requires 0 <= i < store.len(),
    ensures store_get(store, store[i].0.0@) is Some,
    decreases store.len(),
{
    if store.last().0.0@ != store[i].0.0@ {
        assert(i < store.len() - 1);
        assert(store.drop_last()[i] == store[i]);
        lemma_store_get_has(store.drop_last(), i);
    }
}

/// In a store without collisions, a hash gives the node of any entry under it.
proof fn lemma_unique_get(store: Seq<(VHash, TrieNode)>, i: int)
    requires 0 <= i < store.len(), hashes_unique(store),
    ensures store_get(store, store[i].0.0@) == Some(store[i].1@),
{
    lemma_store_get_has(store, i);
    lemma_store_get_entry(store, store[i].0.0@);
    let j = choose|j: int| 0 <= j < store.len() && (#[trigger] store[j]).0.0@ == store[i].0.0@
        && store[j].1@ == store_get(store, store[i].0.0@).unwrap();
    assert(store[i].0.0@ == store[j].0.0@);
}

proof fn lemma_unique_prefix(s0: Seq<(VHash, TrieNode)>, s1: Seq<(VHash, TrieNode)>)
    requires s0.len() <= s1.len(), s1.subrange(0, s0.len() as int) == s0, hashes_unique(s1),
    ensures hashes_unique(s0),
{
    assert forall|i: int, j: int| 0 <= i < s0.len() && 0 <= j < s0.len() && (#[trigger] s0[i]).0.0@ == (#[trigger] s0[j]).0.0@
        implies s0[i].1@ == s0[j].1@ by {
        assert(s0[i] == s1[i] && s0[j] == s1[j]);
    }
}

proof fn lemma_has_grow(s0: Seq<(VHash, TrieNode)>, s1: Seq<(VHash, TrieNode)>, h: Seq<u8>)
    requires s0.len() <= s1.len(), s1.subrange(0, s0.len() as int) == s0, has_hash(s0, h),
    ensures has_hash(s1, h),
{
    let i = choose|i: int| 0 <= i < s0.len() && (#[trigger] s0[i]).0.0@ == h;
    assert(s1[i] == s0[i]);
}

proof fn lemma_refs_grow(n: NodeView, s0: Seq<(VHash, TrieNode)>, s1: Seq<(VHash, TrieNode)>)
    requires s0.len() <= s1.len(), s1.subrange(0, s0.len() as int) == s0, refs_in(n, s0),
    ensures refs_in(n, s1),
{
    match n {
        NodeView::Extension { prefix, child } => { lemma_has_grow(s0, s1, child); },
        NodeView::Branch { children, value } => {
            assert forall|k: int| 0 <= k < 16 && (#[trigger] children[k]) is Some implies has_hash(s1, children[k].unwrap()) by {
                lemma_has_grow(s0, s1, children[k].unwrap());
            }
        },
        _ => {},
    }
}

/// A node found in a sound store names only hashes in it and holds nibbles.
proof fn lemma_sound_get(store: Seq<(VHash, TrieNode)>, h: Seq<u8>)
    requires trie_sound(store), store_get(store, h) is Some,
    ensures refs_in(store_get(store, h).unwrap(), store), parts_ok(store_get(store, h).unwrap()),
{
    lemma_store_get_entry(store, h);
    let i = choose|i: int| 0 <= i < store.len() && (#[trigger] store[i]).0.0@ == h && store[i].1@ == store_get(store, h).unwrap();
    assert(refs_in(store[i].1@, store));
}

/// Lookups from a node of a sound store stay the same once the store has
/// grown, as long as the grown store met no collision.
proof fn lemma_lookup_frame(s0: Seq<(VHash, TrieNode)>, s1: Seq<(VHash, TrieNode)>, h: Seq<u8>, nibs: Seq<u8>, depth: int)
    requires
        s0.len() <= s1.len(), s1.subrange(0, s0.len() as int) == s0,
        hashes_unique(s1), trie_sound(s0), has_hash(s0, h), nibbles_ok(nibs),
    ensures lookup(s1, h, nibs, depth) == lookup(s0, h, nibs, depth),
    decreases nibs.len() - depth,
{
    let i = choose|i: int| 0 <= i < s0.len() && (#[trigger] s0[i]).0.0@ == h;
    assert(s1[i] == s0[i]);
    lemma_unique_prefix(s0, s1);
    lemma_unique_get(s1, i);
    lemma_unique_get(s0, i);
    let n = s0[i].1@;
    assert(refs_in(n, s0));
    if 0 <= depth <= nibs.len() {
        let rest = nibs.subrange(depth, nibs.len() as int);
        match n {
            NodeView::Extension { prefix, child } => {
                if prefix.len() > 0 && starts_with(rest, prefix) {
                    lemma_lookup_frame(s0, s1, child, nibs, depth + prefix.len());
                }
            },
            NodeView::Branch { children, value } => {
                if depth < nibs.len() {
                    let k = nibs[depth] as int;
                    if children[k] is Some {
                        lemma_lookup_frame(s0, s1, children[k].unwrap(), nibs, depth + 1);
                    }
                }
            },
            _ => {},
        }
    }
}


/// A path through a new branch (under an extension over the first `c`
/// nibbles when `c > 0`) at `bhash`: the lookup from `h1` equals the lookup
/// from the branch `c` nibbles further, when the path starts with them.
proof fn lemma_ext_step(s1: Seq<(VHash, TrieNode)>, h1: Seq<u8>, bhash: Seq<u8>, p: Seq<u8>, n2: Seq<u8>, depth: int)
    requires
        0 <= depth <= n2.len(),
        p.len() == 0 ==> h1 == bhash,
        p.len() > 0 ==> store_get(s1, h1) == Some(NodeView::Extension { prefix: p, child: bhash }),
    ensures
        starts_with(n2.subrange(depth, n2.len() as int), p) ==> lookup(s1, h1, n2, depth) == lookup(s1, bhash, n2, depth + p.len()),
        p.len() > 0 && !starts_with(n2.subrange(depth, n2.len() as int), p) ==> lookup(s1, h1, n2, depth) is None,
{
}

/// Splitting the nibbles of a path around position `c` of its rest.
proof fn lemma_split_rest(n2: Seq<u8>, depth: int, c: int, other: Seq<u8>)
    requires 0 <= depth, 0 <= c, depth + c < n2.len(), c < other.len(),
    ensures
        n2.subrange(depth + c + 1, n2.len() as int) == n2.subrange(depth, n2.len() as int).subrange(c + 1, n2.len() - depth),
        n2.subrange(depth, n2.len() as int)[c] == n2[depth + c],
        (n2.subrange(depth, n2.len() as int) == other) <==> (
            n2.subrange(depth, n2.len() as int).subrange(0, c) == other.subrange(0, c)
            && n2[depth + c] == other[c]
            && n2.subrange(depth + c + 1, n2.len() as int) == other.subrange(c + 1, other.len() as int)),
{
    let r2 = n2.subrange(depth, n2.len() as int);
    assert(n2.subrange(depth + c + 1, n2.len() as int) =~= r2.subrange(c + 1, n2.len() - depth));
    if r2.subrange(0, c) == other.subrange(0, c) && n2[depth + c] == other[c]
        && n2.subrange(depth + c + 1, n2.len() as int) == other.subrange(c + 1, other.len() as int) {
        assert(r2.len() == other.len()) by {
            assert(r2.subrange(c + 1, r2.len() as int).len() == other.subrange(c + 1, other.len() as int).len());
        }
        assert forall|k: int| 0 <= k < r2.len() implies r2[k] == other[k] by {
            if k < c {
                assert(r2.subrange(0, c)[k] == other.subrange(0, c)[k]);
            } else if k > c {
                assert(r2.subrange(c + 1, r2.len() as int)[k - c - 1] == other.subrange(c + 1, other.len() as int)[k - c - 1]);
            }
        }
        assert(r2 =~= other);
    }
    if r2 == other {
        assert(r2.subrange(c + 1, r2.len() as int) =~= other.subrange(c + 1, other.len() as int));
    }
}

/// A leaf split: the old leaf and the new key hang below a branch at
/// position `c`, the first nibble where they differ.
proof fn lemma_leaf_split(
    s0: Seq<(VHash, TrieNode)>, s1: Seq<(VHash, TrieNode)>, h0: Seq<u8>, h1: Seq<u8>, bhash: Seq<u8>,
    oh: Seq<u8>, nh: Seq<u8>, ke: Seq<u8>, ov: Seq<u8>, nibs: Seq<u8>, depth: int, value: Seq<u8>, c: int,
    ch: Seq<Option<Seq<u8>>>, bv: Option<Seq<u8>>, n2: Seq<u8>,
)
    requires
        0 <= depth <= nibs.len(), 0 <= depth <= n2.len(),
        store_get(s0, h0) == Some(NodeView::Leaf { key_end: ke, value: ov }),
        0 <= c <= ke.len(), c <= nibs.len() - depth,
        forall|k: int| 0 <= k < c ==> ke[k] == #[trigger] nibs[depth + k],
        c < ke.len() && c < nibs.len() - depth ==> ke[c] != nibs[depth + c],
        !(c == ke.len() && c == nibs.len() - depth),
        ch.len() == 16,
        forall|k: int| 0 <= k < 16 ==> #[trigger] ch[k] == (if c < ke.len() && k == ke[c] { Some(oh) }
            else if c < nibs.len() - depth && k == nibs[depth + c] { Some(nh) } else { None }),
        c < ke.len() ==> store_get(s1, oh) == Some(NodeView::Leaf { key_end: ke.subrange(c + 1, ke.len() as int), value: ov }),
        c < nibs.len() - depth ==> store_get(s1, nh) == Some(NodeView::Leaf { key_end: nibs.subrange(depth + c + 1, nibs.len() as int), value: value }),
        bv == (if c == nibs.len() - depth { Some(value) } else if c == ke.len() { Some(ov) } else { None }),
        store_get(s1, bhash) == Some(NodeView::Branch { children: ch, value: bv }),
        c == 0 ==> h1 == bhash,
        c > 0 ==> store_get(s1, h1) == Some(NodeView::Extension { prefix: nibs.subrange(depth, depth + c), child: bhash }),
        nibbles_ok(n2), nibbles_ok(ke),
    ensures
        n2.subrange(depth, n2.len() as int) == nibs.subrange(depth, nibs.len() as int) ==> lookup(s1, h1, n2, depth) == Some(value),
        n2.subrange(depth, n2.len() as int) != nibs.subrange(depth, nibs.len() as int) ==> lookup(s1, h1, n2, depth) == lookup(s0, h0, n2, depth),
{
    let r = nibs.subrange(depth, nibs.len() as int);
    let r2 = n2.subrange(depth, n2.len() as int);
    let p = nibs.subrange(depth, depth + c);
    assert(p =~= r.subrange(0, c));
    assert forall|k: int| 0 <= k < c implies p[k] == ke.subrange(0, c)[k] by {
        assert(ke[k] == nibs[depth + k]);
    }
    assert(p =~= ke.subrange(0, c));
    lemma_ext_step(s1, h1, bhash, p, n2, depth);
    assert(lookup(s0, h0, n2, depth) == if r2 == ke { Some(ov) } else { None });
    let d = depth + c;
    if c == 0 { assert(r2.subrange(0, 0) =~= p); }
    if !starts_with(r2, p) {
        if r2 == ke { assert(r2.subrange(0, c) == ke.subrange(0, c)); }
        if r2 == r { assert(r2.subrange(0, c) == r.subrange(0, c)); }
        return;
    }
    assert(r2.subrange(0, c) == p);
    if d >= n2.len() {
        assert(r2.len() == c);
        assert(r2 =~= p);
        if c < ke.len() { assert(r2 != ke); }
        if c < r.len() { assert(r2 != r); }
        if c == ke.len() { assert(r2 =~= ke); }
        if c == r.len() { assert(r2 =~= r); }
        return;
    }
    let x = n2[d];
    assert(x < 16);
    if c < ke.len() {
        lemma_split_rest(n2, depth, c, ke);
        assert(ke.subrange(0, c) == r2.subrange(0, c));
    }
    if c < r.len() {
        lemma_split_rest(n2, depth, c, r);
        assert(r.subrange(0, c) == r2.subrange(0, c));
        assert(r[c] == nibs[depth + c]);
        assert(r.subrange(c + 1, r.len() as int) =~= nibs.subrange(depth + c + 1, nibs.len() as int));
    }
    assert(lookup(s1, h1, n2, depth) == lookup(s1, bhash, n2, d));
    if c < ke.len() && x == ke[c] {
        assert(ch[x as int] == Some(oh));
        assert(lookup(s1, bhash, n2, d) == lookup(s1, oh, n2, d + 1));
        assert(lookup(s1, oh, n2, d + 1) == if n2.subrange(d + 1, n2.len() as int) == ke.subrange(c + 1, ke.len() as int) { Some(ov) } else { None });
        if c == r.len() { assert(r2.len() > r.len()); assert(r2 != r); }
    } else if c < r.len() && x == nibs[depth + c] {
        assert(ch[x as int] == Some(nh));
        assert(lookup(s1, bhash, n2, d) == lookup(s1, nh, n2, d + 1));
        assert(lookup(s1, nh, n2, d + 1) == if n2.subrange(d + 1, n2.len() as int) == nibs.subrange(depth + c + 1, nibs.len() as int) { Some(value) } else { None });
        if c == ke.len() { assert(r2.len() > ke.len()); assert(r2 != ke); }
    } else {
        assert(ch[x as int] is None);
        if c == ke.len() { assert(r2.len() > ke.len()); assert(r2 != ke); }
        if c == r.len() { assert(r2.len() > r.len()); assert(r2 != r); }
    }
}

/// An extension split: the rest of the old extension and the new key hang
/// below a branch at position `c`, the first nibble where they differ.
proof fn lemma_ext_split(
    s0: Seq<(VHash, TrieNode)>, s1: Seq<(VHash, TrieNode)>, h0: Seq<u8>, h1: Seq<u8>, bhash: Seq<u8>,
    cc: Seq<u8>, eh: Seq<u8>, nh: Seq<u8>, pre: Seq<u8>, child: Seq<u8>, nibs: Seq<u8>, depth: int, value: Seq<u8>, c: int,
    ch: Seq<Option<Seq<u8>>>, n2: Seq<u8>,
)
    requires
        0 <= depth <= nibs.len(), 0 <= depth <= n2.len(),
        store_get(s0, h0) == Some(NodeView::Extension { prefix: pre, child: child }),
        0 <= c < pre.len(), c < nibs.len() - depth,
        forall|k: int| 0 <= k < c ==> pre[k] == #[trigger] nibs[depth + k],
        pre[c] != nibs[depth + c],
        ch.len() == 16,
        forall|k: int| 0 <= k < 16 ==> #[trigger] ch[k] == (if k == pre[c] { Some(cc) }
            else if k == nibs[depth + c] { Some(nh) } else { None }),
        c + 1 < pre.len() ==> cc == eh && store_get(s1, eh) == Some(NodeView::Extension { prefix: pre.subrange(c + 1, pre.len() as int), child: child }),
        c + 1 == pre.len() ==> cc == child,
        store_get(s1, nh) == Some(NodeView::Leaf { key_end: nibs.subrange(depth + c + 1, nibs.len() as int), value: value }),
        store_get(s1, bhash) == Some(NodeView::Branch { children: ch, value: None }),
        c == 0 ==> h1 == bhash,
        c > 0 ==> store_get(s1, h1) == Some(NodeView::Extension { prefix: nibs.subrange(depth, depth + c), child: bhash }),
        depth + pre.len() <= n2.len() ==> lookup(s1, child, n2, depth + pre.len()) == lookup(s0, child, n2, depth + pre.len()),
        nibbles_ok(n2), nibbles_ok(pre),
    ensures
        n2.subrange(depth, n2.len() as int) == nibs.subrange(depth, nibs.len() as int) ==> lookup(s1, h1, n2, depth) == Some(value),
        n2.subrange(depth, n2.len() as int) != nibs.subrange(depth, nibs.len() as int) ==> lookup(s1, h1, n2, depth) == lookup(s0, h0, n2, depth),
{
    let r = nibs.subrange(depth, nibs.len() as int);
    let r2 = n2.subrange(depth, n2.len() as int);
    let p = nibs.subrange(depth, depth + c);
    assert(p =~= r.subrange(0, c));
    assert forall|k: int| 0 <= k < c implies p[k] == pre.subrange(0, c)[k] by {
        assert(pre[k] == nibs[depth + k]);
    }
    assert(p =~= pre.subrange(0, c));
    lemma_ext_step(s1, h1, bhash, p, n2, depth);
    let d = depth + c;
    if c == 0 { assert(r2.subrange(0, 0) =~= p); }
    // When the path follows the whole old prefix, it reaches the old child.
    if starts_with(r2, pre) {
        assert(r2.subrange(0, c) =~= pre.subrange(0, c)) by {
            assert forall|k: int| 0 <= k < c implies r2.subrange(0, c)[k] == pre.subrange(0, c)[k] by {
                assert(r2.subrange(0, pre.len() as int)[k] == pre[k]);
            }
        }
        assert(r2[c] == pre[c]) by { assert(r2.subrange(0, pre.len() as int)[c] == pre[c]); }
    }
    assert(lookup(s0, h0, n2, depth) == if starts_with(r2, pre) { lookup(s0, child, n2, depth + pre.len()) } else { None });
    if !starts_with(r2, p) {
        if r2 == r { assert(r2.subrange(0, c) == r.subrange(0, c)); }
        return;
    }
    assert(r2.subrange(0, c) == p);
    if d >= n2.len() {
        assert(r2.len() == c);
        assert(r2 != r);
        assert(!starts_with(r2, pre));
        return;
    }
    let x = n2[d];
    assert(x < 16);
    lemma_split_rest(n2, depth, c, r);
    assert(r.subrange(0, c) == r2.subrange(0, c));
    assert(r[c] == nibs[depth + c]);
    assert(r.subrange(c + 1, r.len() as int) =~= nibs.subrange(depth + c + 1, nibs.len() as int));
    assert(lookup(s1, h1, n2, depth) == lookup(s1, bhash, n2, d));
    if x == pre[c] {
        assert(ch[x as int] == Some(cc));
        assert(lookup(s1, bhash, n2, d) == lookup(s1, cc, n2, d + 1));
        assert(r2 != r);
        if c + 1 < pre.len() {
            let q = pre.subrange(c + 1, pre.len() as int);
            let r3 = n2.subrange(d + 1, n2.len() as int);
            assert(r3 =~= r2.subrange(c + 1, r2.len() as int));
            // the rest of the path starts with the rest of the prefix exactly
            // when the whole path starts with the whole prefix
            if starts_with(r3, q) {
                assert(r2.subrange(0, pre.len() as int) =~= pre) by {
                    assert forall|k: int| 0 <= k < pre.len() implies r2.subrange(0, pre.len() as int)[k] == pre[k] by {
                        if k < c {
                            assert(r2.subrange(0, c)[k] == pre.subrange(0, c)[k]);
                        } else if k > c {
                            assert(r3.subrange(0, q.len() as int)[k - c - 1] == q[k - c - 1]);
                        }
                    }
                }
            }
            if starts_with(r2, pre) {
                assert(r3.subrange(0, q.len() as int) =~= q) by {
                    assert forall|k: int| 0 <= k < q.len() implies r3.subrange(0, q.len() as int)[k] == q[k] by {
                        assert(r2.subrange(0, pre.len() as int)[k + c + 1] == pre[k + c + 1]);
                    }
                }
            }
            assert(lookup(s1, eh, n2, d + 1) == if starts_with(r3, q) { lookup(s1, child, n2, d + 1 + q.len()) } else { None });
        } else {
            assert(r2.subrange(0, pre.len() as int) =~= pre) by {
                assert forall|k: int| 0 <= k < pre.len() implies r2.subrange(0, pre.len() as int)[k] == pre[k] by {
                    if k < c {
                        assert(r2.subrange(0, c)[k] == pre.subrange(0, c)[k]);
                    }
                }
            }
        }
    } else if x == nibs[depth + c] {
        assert(ch[x as int] == Some(nh));
        assert(lookup(s1, bhash, n2, d) == lookup(s1, nh, n2, d + 1));
        assert(lookup(s1, nh, n2, d + 1) == if n2.subrange(d + 1, n2.len() as int) == nibs.subrange(depth + c + 1, nibs.len() as int) { Some(value) } else { None });
    } else {
        assert(ch[x as int] is None);
    }
}

/// The nibbles of a key are below 16.
proof fn lemma_nibbles_ok(key: Seq<u8>)
    ensures nibbles_ok(nibbles(key)),
{
    assert forall|i: int| 0 <= i < nibbles(key).len() implies #[trigger] nibbles(key)[i] < 16 by {
        let b = key[i / 2];
        assert(b / 16 < 16) by (nonlinear_arith) requires b < 256;
    }
}

/// Different keys have different nibbles.
proof fn lemma_nibbles_injective(a: Seq<u8>, b: Seq<u8>)
    requires a != b,
    ensures nibbles(a) != nibbles(b),
{
    if a.len() == b.len() {
        let i = choose|i: int| 0 <= i < a.len() && a[i] != b[i];
        if !(0 <= i < a.len() && a[i] != b[i]) {
            assert(a =~= b);
        }
        let x = a[i];
        let y = b[i];
        assert(nibbles(a)[2 * i] == x / 16);
        assert(nibbles(a)[2 * i + 1] == x % 16);
        assert(nibbles(b)[2 * i] == y / 16);
        assert(nibbles(b)[2 * i + 1] == y % 16);
        assert(x == (x / 16) * 16 + x % 16);
        assert(y == (y / 16) * 16 + y % 16);
    } else {
        assert(nibbles(a).len() != nibbles(b).len());
    }
}

/// After deleting along `nibs` from `depth` at node `h0` of `s0`, giving
/// node `h1` of `s1`: that path leads nowhere, and every other path from
/// `depth` leads where it led before.
pub open spec fn erased_at(s0: Seq<(VHash, TrieNode)>, h0: Seq<u8>, s1: Seq<(VHash, TrieNode)>, h1: Seq<u8>,
    nibs: Seq<u8>, depth: int) -> bool
{
    &&& lookup(s1, h1, nibs, depth) is None
    &&& forall|n2: Seq<u8>| nibbles_ok(n2) && depth <= n2.len()
            && n2.subrange(depth, n2.len() as int) != nibs.subrange(depth, nibs.len() as int)
            ==> #[trigger] lookup(s1, h1, n2, depth) == lookup(s0, h0, n2, depth)
}

} // verus!
