use vstd::prelude::*;

use crate::action::{
    apply_withs, extensions_of, properties_of_withs, Action, ActionModel, Root, RootModel,
};
use crate::error::Error;
use crate::order::same_str;
use crate::properties::{Identifier, Properties};
use crate::value::{Value, ValueModel};

verus! {

/// The data of a block: its identifier, the actions that initialize it,
/// and its roots, by their views.
pub struct BlockModel {
    pub ident: (Seq<char>, Seq<char>),
    pub initialize: Seq<ActionModel>,
    pub roots: Seq<RootModel>,
}

/// A block of attributes: its identifier, the actions that initialize it
/// and its roots.
#[derive(Debug)]
pub struct Block {
    ident: Identifier,
    initialize: Vec<Action>,
    roots: Vec<Root>,
}

impl View for Block {
    type V = BlockModel;

    closed spec fn view(&self) -> BlockModel {
        BlockModel {
            ident: self.ident@,
            initialize: self.initialize@.map_values(|a: Action| a@),
            roots: self.roots@.map_values(|r: Root| r@),
        }
    }
}

/// The block with the identifier `ident`, with no actions and no roots.
pub open spec fn new_block(ident: (Seq<char>, Seq<char>)) -> BlockModel {
    BlockModel { ident, initialize: Seq::empty(), roots: Seq::empty() }
}

/// The block `b` with other initializing actions.
pub open spec fn with_initialize(b: BlockModel, initialize: Seq<ActionModel>) -> BlockModel {
    BlockModel { initialize, ..b }
}

/// The block `b` with other roots.
pub open spec fn with_roots(b: BlockModel, roots: Seq<RootModel>) -> BlockModel {
    BlockModel { roots, ..b }
}

/// The root `r` with other actions.
pub open spec fn with_actions(r: RootModel, actions: Seq<ActionModel>) -> RootModel {
    RootModel { actions, ..r }
}

/// The block `b` with its last root's actions followed by `more`.
pub open spec fn last_root_extended(b: BlockModel, more: Seq<ActionModel>) -> BlockModel {
    with_roots(b, b.roots.update(b.roots.len() - 1, with_actions(b.roots.last(), b.roots.last().actions + more)))
}

/// The root with the identifier and value, and no actions.
pub open spec fn new_root(ident: (Seq<char>, Seq<char>), value: ValueModel) -> RootModel {
    RootModel { ident, value, actions: Seq::empty() }
}

/// The identifiers that the roots of a block are extended with, root by
/// root, in order.
pub open spec fn required_of(roots: Seq<RootModel>) -> Seq<(Seq<char>, Seq<char>)>
    decreases roots.len(),
{
    if roots.len() == 0 {
        Seq::empty()
    } else {
        required_of(roots.drop_last()) + extensions_of(roots.last().actions)
    }
}

impl Block {
    /// Returns the block with the identifier `ident`, with no actions and no
    /// roots.
    pub fn new(ident: Identifier) -> (b: Block)
        ensures
            b@ == new_block(ident@),
    {
        let b = Block { ident, initialize: Vec::new(), roots: Vec::new() };
        assert(b@.initialize =~= Seq::<ActionModel>::empty());
        assert(b@.roots =~= Seq::<RootModel>::empty());
        b
    }

    /// Returns the identifier of the block.
    pub fn ident(&self) -> (i: &Identifier)
        ensures
            i@ == self@.ident,
    {
        &self.ident
    }

    /// Returns the identifiers that the roots are extended with, root by
    /// root, in order.
    pub fn required(&self) -> (r: Vec<&Identifier>)
        ensures
            r@.map_values(|i: &Identifier| i@) == required_of(self@.roots),
    {
        let ghost roots = self@.roots;
        let mut out: Vec<&Identifier> = Vec::new();
        let mut i: usize = 0;
        proof {
            assert(roots.take(0) =~= Seq::<RootModel>::empty());
            assert(out@.map_values(|x: &Identifier| x@) =~= Seq::<(Seq<char>, Seq<char>)>::empty());
        }
        while i < self.roots.len()
            invariant
                i <= self.roots@.len(),
                roots == self.roots@.map_values(|r: Root| r@),
                out@.map_values(|x: &Identifier| x@) == required_of(roots.take(i as int)),
            decreases self.roots@.len() - i,
        {
            let exts = self.roots[i].extensions();
            let ghost before = out@;
            let mut k: usize = 0;
            while k < exts.len()
                invariant
                    k <= exts@.len(),
                    out@.map_values(|x: &Identifier| x@) == before.map_values(|x: &Identifier| x@)
                        + exts@.take(k as int).map_values(|x: &Identifier| x@),
                decreases exts@.len() - k,
            {
                let ghost mid = out@;
                out.push(exts[k]);
                proof {
                    assert(out@.map_values(|x: &Identifier| x@) =~= mid.map_values(|x: &Identifier| x@).push(exts@[k as int]@));
                    assert(exts@.take(k + 1).map_values(|x: &Identifier| x@) =~= exts@.take(k as int).map_values(|x: &Identifier| x@).push(exts@[k as int]@));
                }
                k = k + 1;
            }
            proof {
                assert(exts@.take(exts@.len() as int) =~= exts@);
                assert(roots.take(i + 1).drop_last() =~= roots.take(i as int));
                assert(roots.take(i + 1).last() == self.roots@[i as int]@);
                assert(out@.map_values(|x: &Identifier| x@) =~= required_of(roots.take(i + 1)));
            }
            i = i + 1;
        }
        proof {
            assert(roots.take(self.roots@.len() as int) =~= roots);
        }
        out
    }

    /// Adds an action that initializes the block.
    pub fn initialize_with(&mut self, action: Action)
        ensures
            final(self)@ == with_initialize(old(self)@, old(self)@.initialize.push(action@)),
    {
        self.initialize.push(action);
        assert(self@.initialize =~= old(self)@.initialize.push(action@));
    }

    /// Adds a root with the identifier and value.
    pub fn add_attribute(&mut self, ident: Identifier, value: Value)
        ensures
            final(self)@ == with_roots(old(self)@, old(self)@.roots.push(new_root(ident@, value@))),
    {
        let root = Root::new(ident, value);
        self.roots.push(root);
        assert(self@.roots =~= old(self)@.roots.push(new_root(ident@, value@)));
    }

    /// Returns the roots, in order.
    pub fn roots(&self) -> (r: &Vec<Root>)
        ensures
            r@.map_values(|x: Root| x@) == self@.roots,
    {
        &self.roots
    }

    /// Returns the properties the block is built with: owned by its
    /// identifier, with the names and values of its initializing `With`
    /// actions added in order.
    pub fn properties(&self) -> (p: Properties)
        ensures
            p@.owner == self@.ident,
            p@.map() == apply_withs(Map::empty(), self@.initialize),
    {
        properties_of_withs(self.ident.clone(), &self.initialize)
    }

    /// Returns the number of roots.
    pub fn root_count(&self) -> (n: usize)
        ensures
            n == self@.roots.len(),
    {
        self.roots.len()
    }
}

/// The keywords of runmd statements that blocks distinguish.
#[derive(Debug, Clone, Copy, PartialEq, Eq, Structural)]
pub enum Keywords {
    /// Adds a root attribute.
    Add,
    /// Defines properties of the last root, or of the block before it has
    /// roots.
    Define,
    /// Extends the last root.
    Extension,
    /// Any other statement.
    Other,
}

/// A parsed runmd statement: the block it belongs to, its identifier, its
/// keyword and its actions.
#[derive(Debug)]
pub struct Packet {
    pub block_identifier: Identifier,
    pub identifier: Identifier,
    pub keyword: Keywords,
    pub actions: Vec<Action>,
}

/// The data of a packet, by views.
pub struct PacketModel {
    pub block_identifier: (Seq<char>, Seq<char>),
    pub identifier: (Seq<char>, Seq<char>),
    pub keyword: Keywords,
    pub actions: Seq<ActionModel>,
}

impl View for Packet {
    type V = PacketModel;

    open spec fn view(&self) -> PacketModel {
        PacketModel {
            block_identifier: self.block_identifier@,
            identifier: self.identifier@,
            keyword: self.keyword,
            actions: self.actions@.map_values(|a: Action| a@),
        }
    }
}

/// Why a packet is not merged into another.
#[derive(Debug)]
pub enum MergeRejectedReason {
    /// It belongs to another block.
    DifferentBlockNamespace(Packet),
    /// It adds a new root.
    NewRoot(Packet),
    /// It is a new extension.
    NewExtension(Packet),
    /// Its identifier is another one.
    UnrelatedPacket(Packet),
}

/// Handles the packets of a parsed runmd document.
pub trait PacketHandler {
    /// Called on each packet once.
    fn on_packet(&mut self, packet: Packet) -> Result<(), Error>;
}

impl PacketHandler for () {
    /// Accepts every packet and does nothing with it.
    fn on_packet(&mut self, packet: Packet) -> (r: Result<(), Error>)
        ensures
            r is Ok,
    {
        Ok(())
    }
}

impl Packet {
    /// True if the packet adds a root.
    pub fn is_add(&self) -> (r: bool)
        ensures
            r == (self.keyword == Keywords::Add),
    {
        match self.keyword {
            Keywords::Add => true,
            _ => false,
        }
    }

    /// True if the packet is an extension.
    pub fn is_extension(&self) -> (r: bool)
        ensures
            r == (self.keyword == Keywords::Extension),
    {
        match self.keyword {
            Keywords::Extension => true,
            _ => false,
        }
    }

    /// True if the packet defines properties.
    pub fn is_define(&self) -> (r: bool)
        ensures
            r == (self.keyword == Keywords::Define),
    {
        match self.keyword {
            Keywords::Define => true,
            _ => false,
        }
    }

    /// Merges `other` into this packet, appending its actions, where it is
    /// a define packet with the same block and identifier; otherwise hands
    /// it back with the first reason that applies, in this order: it is an
    /// extension, it adds a root, its block is another one, its identifier
    /// is another one or it defines nothing (it is unrelated).
    pub fn merge_packet(&mut self, other: Packet) -> (r: Result<(), MergeRejectedReason>)
        ensures
            other.keyword == Keywords::Extension ==> (r matches Err(MergeRejectedReason::NewExtension(p)) && p@ == other@ && final(self)@ == old(self)@),
            other.keyword == Keywords::Add ==> (r matches Err(MergeRejectedReason::NewRoot(p)) && p@ == other@ && final(self)@ == old(self)@),
            other.keyword != Keywords::Extension && other.keyword != Keywords::Add && old(self)@.block_identifier != other@.block_identifier
                ==> (r matches Err(MergeRejectedReason::DifferentBlockNamespace(p)) && p@ == other@ && final(self)@ == old(self)@),
            other.keyword != Keywords::Extension && other.keyword != Keywords::Add && old(self)@.block_identifier == other@.block_identifier
                && old(self)@.identifier != other@.identifier
                ==> (r matches Err(MergeRejectedReason::UnrelatedPacket(p)) && p@ == other@ && final(self)@ == old(self)@),
            other.keyword == Keywords::Other && old(self)@.block_identifier == other@.block_identifier
                && old(self)@.identifier == other@.identifier
                ==> (r matches Err(MergeRejectedReason::UnrelatedPacket(p)) && p@ == other@ && final(self)@ == old(self)@),
            other.keyword == Keywords::Define && old(self)@.block_identifier == other@.block_identifier
                && old(self)@.identifier == other@.identifier
                ==> r is Ok && final(self)@ == merged(old(self)@, other@.actions),
    {
        if other.is_extension() {
            Err(MergeRejectedReason::NewExtension(other))
        } else if other.is_add() {
            Err(MergeRejectedReason::NewRoot(other))
        } else if !same_ident(&self.block_identifier, &other.block_identifier) {
            Err(MergeRejectedReason::DifferentBlockNamespace(other))
        } else if !same_ident(&self.identifier, &other.identifier) {
            Err(MergeRejectedReason::UnrelatedPacket(other))
        } else if !other.is_define() {
            Err(MergeRejectedReason::UnrelatedPacket(other))
        } else {
            let mut more = other.actions;
            let ghost before = self.actions@;
            let ghost extra = more@;
            self.actions.append(&mut more);
            proof {
                assert(self.actions@ == before + extra);
                assert(self.actions@.map_values(|a: Action| a@) =~= before.map_values(|a: Action| a@) + extra.map_values(|a: Action| a@));
            }
            Ok(())
        }
    }

    /// Returns the properties an extension packet builds: owned by its
    /// identifier, with the names and values of its `With` actions added in
    /// order. Other packets build nothing.
    pub fn build_properties(&self) -> (r: Result<Properties, Error>)
        ensures
            self.keyword == Keywords::Extension ==> (r matches Ok(p) && p@.owner == self.identifier@
                && p@.map() == apply_withs(Map::empty(), self@.actions)),
            self.keyword != Keywords::Extension ==> (r matches Err(e) && e.message@ == "not implemented"@),
    {
        match self.keyword {
            Keywords::Extension => Ok(properties_of_withs(self.identifier.clone(), &self.actions)),
            _ => Err(Error::new("not implemented")),
        }
    }
}

/// The packet `p` with `more` appended to its actions.
pub open spec fn merged(p: PacketModel, more: Seq<ActionModel>) -> PacketModel {
    PacketModel { actions: p.actions + more, ..p }
}

/// The block after a statement of it: an `Add` whose first action is a
/// `With` adds a root with that value; a `Define` with actions initializes
/// the block before it has roots, and the last root afterwards; an
/// `Extension` extends the last root; anything else changes nothing.
pub open spec fn block_after(b: BlockModel, keyword: Keywords, ident: (Seq<char>, Seq<char>), actions: Seq<ActionModel>) -> BlockModel {
    match keyword {
        Keywords::Add => if actions.len() > 0 && actions[0] is With {
            with_roots(b, b.roots.push(new_root(ident, actions[0]->With_1)))
        } else {
            b
        },
        Keywords::Define => if actions.len() > 0 && b.roots.len() == 0 {
            with_initialize(b, b.initialize + actions)
        } else if actions.len() > 0 {
            last_root_extended(b, actions)
        } else {
            b
        },
        Keywords::Extension => if b.roots.len() > 0 {
            last_root_extended(b, seq![ActionModel::Extend(ident)])
        } else {
            b
        },
        Keywords::Other => b,
    }
}

/// The position of the first entry with the identifier `id`, or -1.
pub open spec fn find_block(keys: Seq<(Seq<char>, Seq<char>)>, id: (Seq<char>, Seq<char>)) -> int
    decreases keys.len(),
{
    if keys.len() == 0 {
        -1
    } else {
        let j = find_block(keys.drop_last(), id);
        if j >= 0 {
            j
        } else if keys.last() == id {
            keys.len() - 1
        } else {
            -1
        }
    }
}

proof fn lemma_find_block(keys: Seq<(Seq<char>, Seq<char>)>, id: (Seq<char>, Seq<char>))
    ensures
        -1 <= find_block(keys, id) < keys.len(),
        find_block(keys, id) >= 0 ==> keys[find_block(keys, id)] == id,
        forall|i: int| 0 <= i < keys.len() && (find_block(keys, id) < 0 || i < find_block(keys, id)) ==> keys[i] != id,
    decreases keys.len(),
{
    if keys.len() > 0 {
        let rest = keys.drop_last();
        lemma_find_block(rest, id);
        assert forall|i: int| 0 <= i < keys.len() && (find_block(keys, id) < 0 || i < find_block(keys, id)) implies keys[i] != id by {
            if i < keys.len() - 1 {
                assert(keys[i] == rest[i]);
            }
        }
    }
}

/// The blocks of a runmd document, by identifier.
#[derive(Debug)]
pub struct BlockList {
    blocks: Vec<(Identifier, Block)>,
}

/// The identifiers of the entries of a block list, in order.
pub open spec fn block_keys(blocks: Seq<(Identifier, Block)>) -> Seq<(Seq<char>, Seq<char>)> {
    blocks.map_values(|e: (Identifier, Block)| e.0@)
}

impl View for BlockList {
    type V = Map<(Seq<char>, Seq<char>), BlockModel>;

    closed spec fn view(&self) -> Map<(Seq<char>, Seq<char>), BlockModel> {
        Map::new(
            |k: (Seq<char>, Seq<char>)| find_block(block_keys(self.blocks@), k) >= 0,
            |k: (Seq<char>, Seq<char>)| self.blocks@[find_block(block_keys(self.blocks@), k)].1@,
        )
    }
}

fn same_ident(a: &Identifier, b: &Identifier) -> (r: bool)
    ensures
        r == (a@ == b@),
{
    same_str(a.name().as_str(), b.name().as_str()) && same_str(a.subject().as_str(), b.subject().as_str())
}

impl BlockList {
    /// Returns an empty block list.
    pub fn new() -> (l: BlockList)
        ensures
            l@ == Map::<(Seq<char>, Seq<char>), BlockModel>::empty(),
    {
        let l = BlockList { blocks: Vec::new() };
        assert(l@ =~= Map::<(Seq<char>, Seq<char>), BlockModel>::empty());
        l
    }

    /// Returns the block with the identifier `ident`, if any.
    pub fn block(&self, ident: &Identifier) -> (b: Option<&Block>)
        ensures
            match b {
                Some(block) => self@.contains_key(ident@) && block@ == self@[ident@],
                None => !self@.contains_key(ident@),
            },
    {
        proof {
            lemma_find_block(block_keys(self.blocks@), ident@);
        }
        match self.position(ident) {
            Some(j) => Some(&self.blocks[j].1),
            None => None,
        }
    }

    /// The position of the block with the identifier `ident`.
    fn position(&self, ident: &Identifier) -> (r: Option<usize>)
        ensures
            match r {
                Some(j) => j == find_block(block_keys(self.blocks@), ident@),
                None => find_block(block_keys(self.blocks@), ident@) < 0,
            },
    {
        let ghost keys = block_keys(self.blocks@);
        let mut j: usize = 0;
        while j < self.blocks.len()
            invariant
                j <= self.blocks@.len(),
                keys == block_keys(self.blocks@),
                forall|k: int| 0 <= k < j ==> keys[k] != ident@,
            decreases self.blocks@.len() - j,
        {
            proof {
                assert(keys[j as int] == self.blocks@[j as int].0@);
            }
            if same_ident(&self.blocks[j].0, ident) {
                proof {
                    lemma_find_block(keys, ident@);
                    if find_block(keys, ident@) < 0 || j < find_block(keys, ident@) {
                        assert(keys[j as int] != ident@);
                    }
                }
                return Some(j);
            }
            j = j + 1;
        }
        proof {
            lemma_find_block(keys, ident@);
            if find_block(keys, ident@) >= 0 {
                assert(keys[find_block(keys, ident@)] == ident@);
            }
        }
        None
    }

    /// Applies a statement to the block it belongs to, which is created
    /// (empty) where it is missing (see `block_after`). Never fails.
    fn apply_packet(&mut self, packet: Packet) -> (r: Result<(), Error>)
        ensures
            r is Ok,
            final(self)@ == old(self)@.insert(
                packet.block_identifier@,
                block_after(
                    if old(self)@.contains_key(packet.block_identifier@) {
                        old(self)@[packet.block_identifier@]
                    } else {
                        new_block(packet.block_identifier@)
                    },
                    packet.keyword,
                    packet.identifier@,
                    packet.actions@.map_values(|a: Action| a@),
                ),
            ),
    {
        let ghost bid = packet.block_identifier@;
        let ghost start_map = self@;
        let ghost acts = packet.actions@.map_values(|a: Action| a@);
        let Packet { block_identifier, identifier, keyword, actions } = packet;
        let j = match self.position(&block_identifier) {
            Some(j) => j,
            None => {
                let block = Block::new(block_identifier.clone());
                let ghost before = self.blocks@;
                self.blocks.push((block_identifier.clone(), block));
                proof {
                    let keys = block_keys(before);
                    lemma_find_block(keys, bid);
                    assert(block_keys(self.blocks@) =~= keys.push(bid));
                    assert(block_keys(self.blocks@).drop_last() =~= keys);
                    assert(find_block(block_keys(self.blocks@), bid) == before.len());
                    assert(self@ =~= start_map.insert(bid, new_block(bid))) by {
                        assert forall|k: (Seq<char>, Seq<char>)| #[trigger] self@.contains_key(k) <==> start_map.insert(bid, new_block(bid)).contains_key(k) by {
                            assert(block_keys(self.blocks@).drop_last() =~= keys);
                        }
                        assert forall|k: (Seq<char>, Seq<char>)| self@.contains_key(k) implies #[trigger] self@[k] == start_map.insert(bid, new_block(bid))[k] by {
                            let fk = find_block(keys, k);
                            lemma_find_block(keys, k);
                            if k != bid {
                                assert(fk >= 0);
                                assert(self.blocks@[fk] == before[fk]);
                            }
                        }
                    }
                }
                self.blocks.len() - 1
            },
        };
        let ghost mid_map = self@;
        let ghost blocks0 = self.blocks@;
        proof {
            lemma_find_block(block_keys(blocks0), bid);
            assert(j == find_block(block_keys(blocks0), bid));
            assert(mid_map.contains_key(bid));
            assert(j == find_block(block_keys(blocks0), bid));
            assert(mid_map[bid] == blocks0[j as int].1@);
            assert(mid_map[bid] == if start_map.contains_key(bid) {
                start_map[bid]
            } else {
                new_block(bid)
            });
        }
        let (key, mut block) = self.blocks.remove(j);
        match keyword {
            Keywords::Add => {
                if actions.len() > 0 {
                    match &actions[0] {
                        Action::With(_, value) => {
                            block.add_attribute(identifier, value.clone());
                        },
                        _ => {},
                    }
                }
            },
            Keywords::Define => {
                if actions.len() > 0 {
                    if block.root_count() == 0 {
                        block.initialize_all(actions);
                    } else {
                        block.push_all_to_last(actions);
                    }
                }
            },
            Keywords::Extension => {
                block.extend_last(&identifier);
            },
            Keywords::Other => {},
        }
        proof {
            assert(block@ == block_after(blocks0[j as int].1@, keyword, identifier@, acts));
        }
        self.blocks.insert(j, (key, block));
        proof {
            let keys0 = block_keys(blocks0);
            assert(block_keys(self.blocks@) =~= keys0);
            assert forall|k: (Seq<char>, Seq<char>)| self@.contains_key(k) implies #[trigger] self@[k] == mid_map.insert(bid, block@)[k] by {
                let fk = find_block(keys0, k);
                if k != bid {
                    lemma_find_block(keys0, k);
                    assert(fk != j);
                    assert(self.blocks@[fk] == blocks0[fk]);
                }
            }
            assert(self@ =~= mid_map.insert(bid, block@));
        }
        Ok(())
    }
}

impl PacketHandler for BlockList {
    /// Applies the packet to the block it belongs to, which is created
    /// (empty) where it is missing (see `block_after`). Never fails.
    fn on_packet(&mut self, packet: Packet) -> (r: Result<(), Error>)
        ensures
            r is Ok,
            final(self)@ == old(self)@.insert(
                packet.block_identifier@,
                block_after(
                    if old(self)@.contains_key(packet.block_identifier@) {
                        old(self)@[packet.block_identifier@]
                    } else {
                        new_block(packet.block_identifier@)
                    },
                    packet.keyword,
                    packet.identifier@,
                    packet.actions@.map_values(|a: Action| a@),
                ),
            ),
    {
        self.apply_packet(packet)
    }
}

impl Block {
    /// Adds each action, in order, to those that initialize the block.
    fn initialize_all(&mut self, actions: Vec<Action>)
        ensures
            final(self)@ == with_initialize(old(self)@, old(self)@.initialize + actions@.map_values(|a: Action| a@)),
    {
        let ghost acts = actions@.map_values(|a: Action| a@);
        let mut actions = actions;
        let ghost mut done: int = 0;
        while actions.len() > 0
            invariant
                0 <= done <= acts.len(),
                actions@.map_values(|a: Action| a@) == acts.skip(done),
                self@ == with_initialize(old(self)@, old(self)@.initialize + acts.take(done)),
            decreases actions@.len(),
        {
            let ghost rest = actions@;
            let a = actions.remove(0);
            proof {
                assert(rest.map_values(|x: Action| x@).len() == acts.len() - done);
                assert(rest.map_values(|x: Action| x@)[0] == a@);
                assert(acts.skip(done)[0] == acts[done]);
                assert(acts[done] == a@);
            }
            self.initialize_with(a);
            proof {
                assert(acts.take(done + 1) =~= acts.take(done).push(acts[done]));
                assert(actions@ =~= rest.subrange(1, rest.len() as int));
                assert forall|k: int| 0 <= k < actions@.len() implies actions@.map_values(|x: Action| x@)[k] == #[trigger] acts.skip(done + 1)[k] by {
                    assert(actions@[k] == rest[k + 1]);
                    assert(rest.map_values(|x: Action| x@)[k + 1] == acts.skip(done)[k + 1]);
                }
                assert(actions@.map_values(|x: Action| x@) =~= acts.skip(done + 1));
                done = done + 1;
            }
        }
        proof {
            assert(acts.take(done) =~= acts);
        }
    }

    /// Adds each action, in order, to those of the last root.
    fn push_all_to_last(&mut self, actions: Vec<Action>)
        requires
            old(self)@.roots.len() > 0,
        ensures
            final(self)@ == last_root_extended(old(self)@, actions@.map_values(|a: Action| a@)),
    {
        let ghost acts = actions@.map_values(|a: Action| a@);
        let n = self.roots.len();
        let mut root = self.roots.remove(n - 1);
        let ghost first = root@;
        let mut actions = actions;
        let ghost mut done: int = 0;
        while actions.len() > 0
            invariant
                0 <= done <= acts.len(),
                actions@.map_values(|a: Action| a@) == acts.skip(done),
                root@ == with_actions(first, first.actions + acts.take(done)),
            decreases actions@.len(),
        {
            let ghost rest = actions@;
            let a = actions.remove(0);
            proof {
                assert(rest.map_values(|x: Action| x@).len() == acts.len() - done);
                assert(rest.map_values(|x: Action| x@)[0] == a@);
                assert(acts.skip(done)[0] == acts[done]);
                assert(acts[done] == a@);
            }
            root.push(a);
            proof {
                assert(acts.take(done + 1) =~= acts.take(done).push(acts[done]));
                assert(actions@ =~= rest.subrange(1, rest.len() as int));
                assert forall|k: int| 0 <= k < actions@.len() implies actions@.map_values(|x: Action| x@)[k] == #[trigger] acts.skip(done + 1)[k] by {
                    assert(actions@[k] == rest[k + 1]);
                    assert(rest.map_values(|x: Action| x@)[k + 1] == acts.skip(done)[k + 1]);
                }
                assert(actions@.map_values(|x: Action| x@) =~= acts.skip(done + 1));
                done = done + 1;
            }
        }
        proof {
            assert(acts.take(done) =~= acts);
        }
        self.roots.push(root);
        assert(self@.roots =~= last_root_extended(old(self)@, acts).roots);
    }

    /// Extends the last root, if any, with `ident`.
    fn extend_last(&mut self, ident: &Identifier)
        ensures
            old(self)@.roots.len() == 0 ==> final(self)@ == old(self)@,
            old(self)@.roots.len() > 0 ==> final(self)@ == last_root_extended(old(self)@, seq![ActionModel::Extend(ident@)]),
    {
        let n = self.roots.len();
        if n > 0 {
            let root = self.roots.remove(n - 1);
            let extended = root.extend(ident);
            self.roots.push(extended);
            assert(old(self)@.roots.last().actions.push(ActionModel::Extend(ident@)) =~= old(self)@.roots.last().actions + seq![ActionModel::Extend(ident@)]);
            assert(self@.roots =~= last_root_extended(old(self)@, seq![ActionModel::Extend(ident@)]).roots);
        }
    }
}

} // verus!
