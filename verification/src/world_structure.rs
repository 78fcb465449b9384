use vstd::prelude::*;

verus! {

/// A block of a structure: its offset from the structure's root and its block type.
pub type StructureBlock = ((i32, i32, i32), i16);

/// A tree, bush or pile of logs, placed relative to a root block of a chunk.
pub struct WorldStructure {
    pub root: (i32, i32, i32),
    pub root_chunk_position: (i32, i32, i32),
    pub blocks: Vec<StructureBlock>,
    pub miroor_multiplier: (i32, i32, i32),
    pub mirror_axis: i32,
}

/// What a structure is, as plain values.
#[verifier::ext_equal]
pub struct StructureSpec {
    pub root: (i32, i32, i32),
    pub root_chunk_position: (i32, i32, i32),
    pub blocks: Seq<StructureBlock>,
    pub miroor_multiplier: (i32, i32, i32),
    pub mirror_axis: i32,
}

impl View for WorldStructure {
    type V = StructureSpec;

    open spec fn view(&self) -> StructureSpec {
        StructureSpec {
            root: self.root,
            root_chunk_position: self.root_chunk_position,
            blocks: self.blocks@,
            miroor_multiplier: self.miroor_multiplier,
            mirror_axis: self.mirror_axis,
        }
    }
}

/// A structure with the given root and blocks, neither mirrored nor swapped.
pub open spec fn plain_structure(
    root: (i32, i32, i32),
    root_chunk: (i32, i32, i32),
    blocks: Seq<StructureBlock>,
) -> StructureSpec {
    StructureSpec {
        root: root,
        root_chunk_position: root_chunk,
        blocks: blocks,
        miroor_multiplier: (1i32, 1i32, 1i32),
        mirror_axis: -1i32,
    }
}

pub open spec fn blk(x: int, y: int, z: int, block_type: int) -> StructureBlock {
    ((x as i32, y as i32, z as i32), block_type as i16)
}

/// Trunk of four logs (type 7) under a crown of leaves (type 8).
pub open spec fn tree_blocks() -> Seq<StructureBlock> {
    seq![blk(0, 0, 0, 7), blk(0, 1, 0, 7), blk(0, 2, 0, 7), blk(0, 3, 0, 7),
        blk(1, 3, 0, 8), blk(-1, 3, 0, 8), blk(0, 3, 1, 8), blk(0, 3, -1, 8), blk(1, 3, 1, 8), blk(1, 3, -1, 8), blk(-1, 3, 1, 8), blk(-1, 3, -1, 8),
        blk(1, 4, 0, 8), blk(-1, 4, 0, 8), blk(0, 4, 1, 8), blk(0, 4, -1, 8), blk(1, 4, 1, 8), blk(1, 4, -1, 8), blk(-1, 4, 1, 8), blk(-1, 4, -1, 8), blk(0, 4, 0, 8),
        blk(1, 5, 0, 8), blk(-1, 5, 0, 8), blk(0, 5, 1, 8), blk(0, 5, -1, 8), blk(0, 5, 0, 8)]
}

/// The tree's blocks with every block type raised by `shift`.
pub open spec fn recoloured(blocks: Seq<StructureBlock>, shift: int) -> Seq<StructureBlock> {
    blocks.map_values(|b: StructureBlock| (b.0, (b.1 + shift) as i16))
}

/// Trunk of six logs under a larger crown.
pub open spec fn big_tree_blocks() -> Seq<StructureBlock> {
    seq![blk(0, 0, 0, 7), blk(0, 1, 0, 7), blk(0, 2, 0, 7), blk(0, 3, 0, 7), blk(0, 4, 0, 7), blk(0, 5, 0, 7),
        blk(1, 5, 0, 8), blk(-1, 5, 0, 8), blk(0, 5, 1, 8), blk(0, 5, -1, 8), blk(1, 5, 1, 8), blk(1, 5, -1, 8), blk(-1, 5, 1, 8), blk(-1, 5, -1, 8),
        blk(1, 6, 0, 8), blk(-1, 6, 0, 8), blk(0, 6, 1, 8), blk(0, 6, -1, 8), blk(1, 6, 1, 8), blk(1, 6, -1, 8), blk(-1, 6, 1, 8), blk(-1, 6, -1, 8), blk(0, 6, 0, 8),
        blk(1, 7, 0, 8), blk(-1, 7, 0, 8), blk(0, 7, 1, 8), blk(0, 7, -1, 8), blk(0, 7, 0, 8), blk(1, 7, -1, 8), blk(-1, 7, 1, 8), blk(-1, 7, -1, 8), blk(-1, 7, -1, 8),
        blk(1, 8, 0, 8), blk(-1, 8, 0, 8), blk(0, 8, 1, 8), blk(0, 8, -1, 8), blk(0, 8, 0, 8)]
}

pub open spec fn bush_blocks() -> Seq<StructureBlock> {
    seq![blk(1, 0, 0, 8), blk(0, 0, 1, 8), blk(1, 0, 1, 8), blk(0, 0, 0, 8),
        blk(1, 1, 0, 8), blk(0, 1, 1, 8), blk(1, 1, 1, 8)]
}

pub open spec fn small_bush_blocks() -> Seq<StructureBlock> {
    seq![blk(0, 0, 0, 8), blk(0, 1, 0, 8)]
}

pub open spec fn logs_blocks() -> Seq<StructureBlock> {
    seq![blk(1, 1, 0, 7), blk(0, 1, 0, 7), blk(-1, 1, 0, 7)]
}

/// The blocks of the structure that `indexed_structure` picks for `index`.
pub open spec fn indexed_blocks(index: i32) -> Seq<StructureBlock> {
    if index == 0 {
        tree_blocks()
    } else if index == 1 {
        big_tree_blocks()
    } else if index == 2 {
        tree_blocks()
    } else if index == 3 {
        small_bush_blocks()
    } else if index == 4 {
        recoloured(tree_blocks(), 3)
    } else if index == 5 {
        logs_blocks()
    } else if index == 6 {
        recoloured(tree_blocks(), 5)
    } else {
        bush_blocks()
    }
}

/// Every block of `blocks` lies within 8 blocks of the root on each axis.
pub open spec fn blocks_near_root(blocks: Seq<StructureBlock>) -> bool {
    forall|j: int| 0 <= j < blocks.len() ==> {
        &&& -8 <= #[trigger] blocks[j].0.0 <= 8
        &&& -8 <= blocks[j].0.1 <= 8
        &&& -8 <= blocks[j].0.2 <= 8
    }
}

/// The structures that `indexed_structure` builds keep their blocks near their root.
pub proof fn lemma_indexed_blocks_near_root(index: i32)
    ensures
        blocks_near_root(indexed_blocks(index)),
{
    let t = tree_blocks();
    assert forall|j: int| 0 <= j < t.len() implies -8 <= #[trigger] t[j].0.0 <= 8 && -8 <= t[j].0.1 <= 8 && -8 <= t[j].0.2 <= 8 by {
    }
    let b = big_tree_blocks();
    assert forall|j: int| 0 <= j < b.len() implies -8 <= #[trigger] b[j].0.0 <= 8 && -8 <= b[j].0.1 <= 8 && -8 <= b[j].0.2 <= 8 by {
    }
    let r3 = recoloured(t, 3);
    assert forall|j: int| 0 <= j < r3.len() implies -8 <= #[trigger] r3[j].0.0 <= 8 && -8 <= r3[j].0.1 <= 8 && -8 <= r3[j].0.2 <= 8 by {
        assert(r3[j].0 == t[j].0);
    }
    let r5 = recoloured(t, 5);
    assert forall|j: int| 0 <= j < r5.len() implies -8 <= #[trigger] r5[j].0.0 <= 8 && -8 <= r5[j].0.1 <= 8 && -8 <= r5[j].0.2 <= 8 by {
        assert(r5[j].0 == t[j].0);
    }
    let u = bush_blocks();
    assert forall|j: int| 0 <= j < u.len() implies -8 <= #[trigger] u[j].0.0 <= 8 && -8 <= u[j].0.1 <= 8 && -8 <= u[j].0.2 <= 8 by {
    }
    let v = small_bush_blocks();
    assert forall|j: int| 0 <= j < v.len() implies -8 <= #[trigger] v[j].0.0 <= 8 && -8 <= v[j].0.1 <= 8 && -8 <= v[j].0.2 <= 8 by {
    }
    let w = logs_blocks();
    assert forall|j: int| 0 <= j < w.len() implies -8 <= #[trigger] w[j].0.0 <= 8 && -8 <= w[j].0.1 <= 8 && -8 <= w[j].0.2 <= 8 by {
    }
}

impl Default for WorldStructure {
    fn default() -> (s: Self)
        ensures
            s@ == plain_structure((0i32, 0i32, 0i32), (0i32, 0i32, 0i32), Seq::empty()),
    {
        WorldStructure {
            root: (0, 0, 0),
            root_chunk_position: (0, 0, 0),
            blocks: Vec::new(),
            miroor_multiplier: (1, 1, 1),
            mirror_axis: -1,
        }
    }
}

impl WorldStructure {
    fn with_blocks(root: (i32, i32, i32), root_chunk: (i32, i32, i32), blocks: Vec<StructureBlock>) -> (s: Self)
        ensures
            s@ == plain_structure(root, root_chunk, blocks@),
    {
        let mut s = WorldStructure::default();
        s.root = root;
        s.root_chunk_position = root_chunk;
        s.blocks = blocks;
        s
    }

    pub fn tree(root: (i32, i32, i32), root_chunk: (i32, i32, i32)) -> (s: Self)
        ensures
            s@ == plain_structure(root, root_chunk, tree_blocks()),
    {
        let blocks = vec![((0, 0, 0), 7), ((0, 1, 0), 7), ((0, 2, 0), 7), ((0, 3, 0), 7),
            ((1, 3, 0), 8), ((-1, 3, 0), 8), ((0, 3, 1), 8), ((0, 3, -1), 8), ((1, 3, 1), 8), ((1, 3, -1), 8), ((-1, 3, 1), 8), ((-1, 3, -1), 8),
            ((1, 4, 0), 8), ((-1, 4, 0), 8), ((0, 4, 1), 8), ((0, 4, -1), 8), ((1, 4, 1), 8), ((1, 4, -1), 8), ((-1, 4, 1), 8), ((-1, 4, -1), 8), ((0, 4, 0), 8),
            ((1, 5, 0), 8), ((-1, 5, 0), 8), ((0, 5, 1), 8), ((0, 5, -1), 8), ((0, 5, 0), 8)];
        WorldStructure::with_blocks(root, root_chunk, blocks)
    }

    /// A tree whose block types are raised by `shift`.
    fn recoloured_tree(root: (i32, i32, i32), root_chunk: (i32, i32, i32), shift: i16) -> (s: Self)
        requires
            0 <= shift <= 5,
        ensures
            s@ == plain_structure(root, root_chunk, recoloured(tree_blocks(), shift as int)),
    {
        let mut tree = WorldStructure::tree(root, root_chunk);
        let n = tree.blocks.len();
        for i in 0..n
            invariant
                n == tree.blocks@.len(),
                n == tree_blocks().len(),
                0 <= shift <= 5,
                tree.root == root,
                tree.root_chunk_position == root_chunk,
                tree.miroor_multiplier == (1i32, 1i32, 1i32),
                tree.mirror_axis == -1,
                forall|j: int| 0 <= j < i ==> tree.blocks@[j] == recoloured(tree_blocks(), shift as int)[j],
                forall|j: int| i <= j < n ==> tree.blocks@[j] == tree_blocks()[j],
        {
            let block = tree.blocks[i];
            assert(7 <= block.1 <= 8);
            tree.blocks.set(i, (block.0, block.1 + shift));
        }
        assert(tree.blocks@ =~= recoloured(tree_blocks(), shift as int));
        tree
    }

    pub fn brich_tree(root: (i32, i32, i32), root_chunk: (i32, i32, i32)) -> (s: Self)
        ensures
            s@ == plain_structure(root, root_chunk, recoloured(tree_blocks(), 3)),
    {
        WorldStructure::recoloured_tree(root, root_chunk, 3)
    }

    pub fn dark_oak_tree(root: (i32, i32, i32), root_chunk: (i32, i32, i32)) -> (s: Self)
        ensures
            s@ == plain_structure(root, root_chunk, recoloured(tree_blocks(), 5)),
    {
        WorldStructure::recoloured_tree(root, root_chunk, 5)
    }

    pub fn big_tree(root: (i32, i32, i32), root_chunk: (i32, i32, i32)) -> (s: Self)
        ensures
            s@ == plain_structure(root, root_chunk, big_tree_blocks()),
    {
        let blocks = vec![((0, 0, 0), 7), ((0, 1, 0), 7), ((0, 2, 0), 7), ((0, 3, 0), 7), ((0, 4, 0), 7), ((0, 5, 0), 7),
            ((1, 5, 0), 8), ((-1, 5, 0), 8), ((0, 5, 1), 8), ((0, 5, -1), 8), ((1, 5, 1), 8), ((1, 5, -1), 8), ((-1, 5, 1), 8), ((-1, 5, -1), 8),
            ((1, 6, 0), 8), ((-1, 6, 0), 8), ((0, 6, 1), 8), ((0, 6, -1), 8), ((1, 6, 1), 8), ((1, 6, -1), 8), ((-1, 6, 1), 8), ((-1, 6, -1), 8), ((0, 6, 0), 8),
            ((1, 7, 0), 8), ((-1, 7, 0), 8), ((0, 7, 1), 8), ((0, 7, -1), 8), ((0, 7, 0), 8), ((1, 7, -1), 8), ((-1, 7, 1), 8), ((-1, 7, -1), 8), ((-1, 7, -1), 8),
            ((1, 8, 0), 8), ((-1, 8, 0), 8), ((0, 8, 1), 8), ((0, 8, -1), 8), ((0, 8, 0), 8)];
        WorldStructure::with_blocks(root, root_chunk, blocks)
    }

    pub fn bush(root: (i32, i32, i32), root_chunk: (i32, i32, i32)) -> (s: Self)
        ensures
            s@ == plain_structure(root, root_chunk, bush_blocks()),
    {
        let blocks = vec![((1, 0, 0), 8), ((0, 0, 1), 8), ((1, 0, 1), 8), ((0, 0, 0), 8),
            ((1, 1, 0), 8), ((0, 1, 1), 8), ((1, 1, 1), 8)];
        WorldStructure::with_blocks(root, root_chunk, blocks)
    }

    pub fn small_bush(root: (i32, i32, i32), root_chunk: (i32, i32, i32)) -> (s: Self)
        ensures
            s@ == plain_structure(root, root_chunk, small_bush_blocks()),
    {
        let blocks = vec![((0, 0, 0), 8), ((0, 1, 0), 8)];
        WorldStructure::with_blocks(root, root_chunk, blocks)
    }

    pub fn logs(root: (i32, i32, i32), root_chunk: (i32, i32, i32)) -> (s: Self)
        ensures
            s@ == plain_structure(root, root_chunk, logs_blocks()),
    {
        let blocks = vec![((1, 1, 0), 7), ((0, 1, 0), 7), ((-1, 1, 0), 7)];
        WorldStructure::with_blocks(root, root_chunk, blocks)
    }

    pub fn indexed_structure(root: (i32, i32, i32), root_chunk: (i32, i32, i32), index: i32) -> (s: Self)
        ensures
            s@ == plain_structure(root, root_chunk, indexed_blocks(index)),
    {
        if index == 0 {
            WorldStructure::tree(root, root_chunk)
        } else if index == 1 {
            WorldStructure::big_tree(root, root_chunk)
        } else if index == 2 {
            WorldStructure::tree(root, root_chunk)
        } else if index == 3 {
            WorldStructure::small_bush(root, root_chunk)
        } else if index == 4 {
            WorldStructure::brich_tree(root, root_chunk)
        } else if index == 5 {
            WorldStructure::logs(root, root_chunk)
        } else if index == 6 {
            WorldStructure::dark_oak_tree(root, root_chunk)
        } else {
            WorldStructure::bush(root, root_chunk)
        }
    }

    pub fn get_indexed_length() -> (n: i32)
        ensures
            n == 8,
    {
        8
    }

    /// A copy of this structure, block for block.
    pub fn duplicate(&self) -> (s: Self)
        ensures
            s@ == self@,
    {
        let mut blocks: Vec<StructureBlock> = Vec::new();
        let n = self.blocks.len();
        for i in 0..n
            invariant
                n == self.blocks@.len(),
                blocks@ == self.blocks@.subrange(0, i as int),
        {
            blocks.push(self.blocks[i]);
        }
        assert(blocks@ =~= self.blocks@);
        WorldStructure {
            root: self.root,
            root_chunk_position: self.root_chunk_position,
            blocks: blocks,
            miroor_multiplier: self.miroor_multiplier,
            mirror_axis: self.mirror_axis,
        }
    }
}

} // verus!
