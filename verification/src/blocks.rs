//! The operations on the blocks of a tag's data: adding, taking out and moving
//! elements, the bytes and the trees together.
use crate::bytes::{copy_of_range, le_bytes, push_le, push_range};
use crate::data::{
    BlockDataView, StructDataView, TagBlockData, TagStructData, fresh_data,
    lemma_struct_data_push, no_bytes, no_struct_data, struct_data_views,
};
use crate::fields::zero_bytes;
use crate::layout::{LayoutView, TagLayout};
use crate::tag::truncated;
use vstd::prelude::*;
use vstd::slice::slice_subrange;

verus! {

// ---------------------------------------------------------------------------
// The size of an element
// ---------------------------------------------------------------------------
/// Whether a layout is one of the classic second generation: only those carry
/// struct tags or versions.
pub open spec fn h2_classic(layout: LayoutView) -> bool {
    (exists|i: int| 0 <= i < layout.struct_tags.len() && (#[trigger] layout.struct_tags[i]) != 0)
        || (exists|i: int|
        0 <= i < layout.struct_versions.len() && (#[trigger] layout.struct_versions[i]) is Some)
}

pub fn looks_like_h2_classic_layout(layout: &TagLayout) -> (r: bool)
    ensures
        r == h2_classic(layout@),
{
    let mut i: usize = 0;
    while i < layout.struct_tags.len()
        invariant
            i <= layout.struct_tags.len(),
            forall|j: int| 0 <= j < i ==> layout@.struct_tags[j] == 0,
        decreases layout.struct_tags.len() - i,
    {
        if layout.struct_tags[i] != 0 {
            assert(layout@.struct_tags[i as int] != 0);
            return true;
        }
        i = i + 1;
    }
    let mut k: usize = 0;
    while k < layout.struct_version_table.len()
        invariant
            k <= layout.struct_version_table.len(),
            forall|j: int| 0 <= j < layout@.struct_tags.len() ==> layout@.struct_tags[j] == 0,
            forall|j: int| 0 <= j < k ==> layout@.struct_versions[j] is None,
        decreases layout.struct_version_table.len() - k,
    {
        if layout.struct_version_table[k].is_some() {
            assert(layout@.struct_versions[k as int] is Some);
            return true;
        }
        k = k + 1;
    }
    false
}

impl BlockDataView {
    /// The size that the layout gives an element.
    pub open spec fn base_size(self, layout: LayoutView) -> usize {
        layout.structs[layout.blocks[self.block_index as int].struct_index as int].size
    }

    /// The size of an element: what the bytes there are say, and the layout where
    /// there are none. A versioned element may differ from its layout.
    pub open spec fn element_size(self, layout: LayoutView) -> int {
        if self.elements.len() > 0 && self.raw.len() > 0 {
            self.raw.len() as int / self.elements.len() as int
        } else {
            self.base_size(layout) as int
        }
    }

    /// The struct of a further element: that of the elements there are, and the
    /// layout's where there are none.
    pub open spec fn element_struct(self, layout: LayoutView) -> u32 {
        if self.elements.len() > 0 {
            self.elements[0].struct_index
        } else {
            layout.blocks[self.block_index as int].struct_index
        }
    }

    /// Whether there are bytes for every element.
    pub open spec fn covered(self, layout: LayoutView) -> bool {
        &&& self.block_index < layout.blocks.len()
        &&& self.elements.len() * self.element_size(layout) <= self.raw.len()
    }

    /// Whether the layout knows the struct of a further element.
    pub open spec fn can_grow(self, layout: LayoutView) -> bool {
        self.element_struct(layout) < layout.structs.len()
    }

    /// Whether the bytes are those of the elements, one after another, and no more.
    pub open spec fn whole(self, layout: LayoutView) -> bool {
        &&& self.covered(layout)
        &&& self.raw.len() == self.elements.len() * self.element_size(layout)
    }

    /// The bytes of element `i`.
    pub open spec fn bytes_of(self, layout: LayoutView, i: int) -> Seq<u8> {
        let size = self.element_size(layout);
        self.raw.subrange(i * size, (i + 1) * size)
    }

    /// The header of a classic block that is about to have its first element.
    pub open spec fn header_for_first(self, layout: LayoutView) -> Option<Seq<u8>> {
        if self.header is Some || self.elements.len() > 0 || !h2_classic(layout) {
            self.header
        } else {
            Some(
                seq![0x64u8, 0x66u8, 0x62u8, 0x74u8] + le_bytes(0) + le_bytes(0) + le_bytes(
                    self.element_size(layout) as u32,
                ),
            )
        }
    }

    /// The block with a fresh element at its end.
    pub open spec fn appended(self, layout: LayoutView) -> BlockDataView {
        BlockDataView {
            raw: self.raw + zeros(self.element_size(layout)),
            elements: self.elements.push(
                fresh_data(layout, self.element_struct(layout), self.big_endian),
            ),
            header: self.header_for_first(layout),
            dirty: true,
            ..self
        }
    }

    /// The block with `element` for its element at `index`.
    pub open spec fn with_element(self, index: int, element: StructDataView) -> BlockDataView {
        BlockDataView { elements: self.elements.update(index, element), ..self }
    }

    /// The block with a fresh element at `index`.
    pub open spec fn inserted(self, layout: LayoutView, index: int) -> BlockDataView {
        let at = index * self.element_size(layout);
        BlockDataView {
            raw: self.raw.take(at) + zeros(self.element_size(layout)) + self.raw.skip(at),
            elements: self.elements.insert(
                index,
                fresh_data(layout, self.element_struct(layout), self.big_endian),
            ),
            header: self.header_for_first(layout),
            dirty: true,
            ..self
        }
    }

    /// The block with a copy of element `index` behind it.
    pub open spec fn duplicated(self, layout: LayoutView, index: int) -> BlockDataView {
        let at = (index + 1) * self.element_size(layout);
        BlockDataView {
            raw: self.raw.take(at) + self.bytes_of(layout, index) + self.raw.skip(at),
            elements: self.elements.insert(index + 1, self.elements[index]),
            dirty: true,
            ..self
        }
    }

    /// The block without element `index`.
    pub open spec fn removed(self, layout: LayoutView, index: int) -> BlockDataView {
        let size = self.element_size(layout);
        BlockDataView {
            raw: self.raw.take(index * size) + self.raw.skip((index + 1) * size),
            elements: self.elements.remove(index),
            dirty: true,
            ..self
        }
    }

    /// The block with the bytes `bytes` and the tree `element` as its element at
    /// `index`, the later ones behind it.
    pub open spec fn put_in(
        self,
        index: int,
        size: int,
        bytes: Seq<u8>,
        element: StructDataView,
    ) -> BlockDataView {
        BlockDataView {
            raw: self.raw.take(index * size) + bytes + self.raw.skip(index * size),
            elements: self.elements.insert(index, element),
            dirty: true,
            ..self
        }
    }

    /// The block with element `from` moved to `to`.
    pub open spec fn moved(self, layout: LayoutView, from: int, to: int) -> BlockDataView {
        if from == to {
            self
        } else {
            self.removed(layout, from).put_in(
                to,
                self.element_size(layout),
                self.bytes_of(layout, from),
                self.elements[from],
            )
        }
    }

    /// The block with elements `i` and `j` in each other's place.
    pub open spec fn swapped(self, layout: LayoutView, i: int, j: int) -> BlockDataView {
        if i == j {
            self
        } else {
            let size = self.element_size(layout);
            BlockDataView {
                raw: replaced(
                    replaced(self.raw, i * size, self.bytes_of(layout, j)),
                    j * size,
                    self.bytes_of(layout, i),
                ),
                elements: self.elements.update(i, self.elements[j]).update(j, self.elements[i]),
                dirty: true,
                ..self
            }
        }
    }

    /// The block without its elements.
    pub open spec fn emptied(self) -> BlockDataView {
        BlockDataView { raw: Seq::empty(), elements: Seq::empty(), dirty: true, ..self }
    }
}

/// `n` zero bytes.
pub open spec fn zeros(n: int) -> Seq<u8> {
    Seq::new(n as nat, |i: int| 0u8)
}

/// Bytes with `part` in the place of those from `at` on.
pub open spec fn replaced(raw: Seq<u8>, at: int, part: Seq<u8>) -> Seq<u8> {
    raw.take(at) + part + raw.skip(at + part.len())
}

// ---------------------------------------------------------------------------
// Arithmetic of elements
// ---------------------------------------------------------------------------
proof fn lemma_room(n: int, size: int, i: int)
    requires
        0 <= i < n,
        0 <= size,
    ensures
        0 <= i * size <= (i + 1) * size <= n * size,
        (i + 1) * size == i * size + size,
{
    assert(0 <= i * size <= (i + 1) * size <= n * size) by (nonlinear_arith)
        requires
            0 <= i < n,
            0 <= size,
    ;
    assert((i + 1) * size == i * size + size) by (nonlinear_arith);
}

proof fn lemma_place(n: int, size: int, i: int)
    requires
        0 <= i <= n,
        0 <= size,
    ensures
        0 <= i * size <= n * size,
{
    assert(0 <= i * size <= n * size) by (nonlinear_arith)
        requires
            0 <= i <= n,
            0 <= size,
    ;
}

proof fn lemma_order(size: int, i: int, j: int)
    requires
        0 <= i < j,
        0 <= size,
    ensures
        (i + 1) * size <= j * size,
{
    assert((i + 1) * size <= j * size) by (nonlinear_arith)
        requires
            i + 1 <= j,
            0 <= size,
    ;
}

/// Dividing the bytes by the elements gives the size back.
proof fn lemma_size_back(n: int, size: int)
    requires
        n > 0,
        size >= 0,
    ensures
        (n * size) / n == size,
{
    assert((n * size) / n == size) by {
        vstd::arithmetic::div_mod::lemma_div_by_multiple(size, n);
        assert(n * size == size * n) by (nonlinear_arith);
    }
}

/// A size is never negative, and fits a machine word.
proof fn lemma_size_nonnegative(b: BlockDataView, layout: LayoutView)
    ensures
        0 <= b.element_size(layout),
        b.elements.len() > 0 && b.raw.len() > 0 ==> b.element_size(layout) <= b.raw.len(),
{
    if b.elements.len() > 0 && b.raw.len() > 0 {
        let n = b.elements.len() as int;
        let r = b.raw.len() as int;
        vstd::arithmetic::div_mod::lemma_div_pos_is_pos(r, n);
        vstd::arithmetic::div_mod::lemma_div_is_ordered_by_denominator(r, 1, n);
    }
}

// ---------------------------------------------------------------------------
// Bytes
// ---------------------------------------------------------------------------
fn insert_bytes(raw: &Vec<u8>, at: usize, part: &Vec<u8>) -> (r: Vec<u8>)
    requires
        at <= raw@.len(),
    ensures
        r@ == raw@.take(at as int) + part@ + raw@.skip(at as int),
{
    let mut r: Vec<u8> = no_bytes();
    push_range(&mut r, raw, 0, at);
    push_range(&mut r, part, 0, part.len());
    push_range(&mut r, raw, at, raw.len());
    assert(r@ =~= raw@.take(at as int) + part@ + raw@.skip(at as int));
    r
}

fn without_bytes(raw: &Vec<u8>, from: usize, to: usize) -> (r: Vec<u8>)
    requires
        from <= to <= raw@.len(),
    ensures
        r@ == raw@.take(from as int) + raw@.skip(to as int),
{
    let mut r: Vec<u8> = no_bytes();
    push_range(&mut r, raw, 0, from);
    push_range(&mut r, raw, to, raw.len());
    assert(r@ =~= raw@.take(from as int) + raw@.skip(to as int));
    r
}

fn replace_bytes(raw: &Vec<u8>, at: usize, part: &Vec<u8>) -> (r: Vec<u8>)
    requires
        at + part@.len() <= raw@.len(),
    ensures
        r@ == replaced(raw@, at as int, part@),
{
    let mut r: Vec<u8> = no_bytes();
    let end: usize = raw.len();
    push_range(&mut r, raw, 0, at);
    push_range(&mut r, part, 0, part.len());
    push_range(&mut r, raw, at + part.len(), end);
    assert(r@ =~= replaced(raw@, at as int, part@));
    r
}

proof fn lemma_data_insert(v: Seq<TagStructData>, i: int, s: TagStructData)
    requires
        0 <= i <= v.len(),
    ensures
        struct_data_views(v.insert(i, s)) == struct_data_views(v).insert(i, s@),
{
    assert(struct_data_views(v.insert(i, s)) =~= struct_data_views(v).insert(i, s@));
}

proof fn lemma_data_update(v: Seq<TagStructData>, i: int, s: TagStructData)
    requires
        0 <= i < v.len(),
    ensures
        struct_data_views(v.update(i, s)) == struct_data_views(v).update(i, s@),
{
    assert(struct_data_views(v.update(i, s)) =~= struct_data_views(v).update(i, s@));
}

proof fn lemma_data_remove(v: Seq<TagStructData>, i: int)
    requires
        0 <= i < v.len(),
    ensures
        struct_data_views(v.remove(i)) == struct_data_views(v).remove(i),
{
    assert(struct_data_views(v.remove(i)) =~= struct_data_views(v).remove(i));
}

// ---------------------------------------------------------------------------
// The operations
// ---------------------------------------------------------------------------
impl TagBlockData {
    /// The size of one element.
    pub fn element_size(&self, layout: &TagLayout) -> (r: usize)
        requires
            layout@.wf(),
            self@.block_index < layout@.blocks.len(),
        ensures
            r as int == self@.element_size(layout@),
    {
        proof {
            lemma_size_nonnegative(self@, layout@);
        }
        if self.elements.len() > 0 && self.raw_data.len() > 0 {
            return self.raw_data.len() / self.elements.len();
        }
        let index: u32 = layout.block_layouts[self.block_index as usize].struct_index;
        assert(index == layout@.blocks[self.block_index as int].struct_index);
        layout.struct_layouts[index as usize].size
    }

    /// The struct of a further element.
    pub fn element_struct_index(&self, layout: &TagLayout) -> (r: usize)
        requires
            self@.block_index < layout@.blocks.len(),
        ensures
            r as int == self@.element_struct(layout@),
    {
        if self.elements.len() > 0 {
            assert(self@.elements[0] == self.elements@[0]@);
            self.elements[0].struct_index as usize
        } else {
            layout.block_layouts[self.block_index as usize].struct_index as usize
        }
    }

    /// Gives a classic block that is about to have its first element the header
    /// that its encoder needs.
    pub fn ensure_h2_classic_header_for_nonempty(
        &mut self,
        layout: &TagLayout,
        element_size: usize,
    )
        requires
            element_size as int == old(self)@.element_size(layout@),
        ensures
            final(self)@ == (BlockDataView {
                header: old(self)@.header_for_first(layout@),
                ..old(self)@
            }),
    {
        if self.classic_block_header.is_some() || self.elements.len() > 0
            || !looks_like_h2_classic_layout(layout) {
            return;
        }
        let mut header: Vec<u8> = Vec::new();
        header.push(0x64);
        header.push(0x66);
        header.push(0x62);
        header.push(0x74);
        push_le(&mut header, 0);
        push_le(&mut header, 0);
        push_le(&mut header, truncated(element_size));
        assert(header@ =~= self@.header_for_first(layout@)->0);
        self.classic_block_header = Some(header);
    }

    /// Marks the block as changed in its elements.
    pub fn mark_classic_structural_dirty(&mut self)
        ensures
            final(self)@ == (BlockDataView { dirty: true, ..old(self)@ }),
    {
        self.classic_structural_dirty = true;
    }

    /// Puts a fresh element at `index`, the later ones behind it, and gives it out.
    pub fn insert_element(&mut self, layout: &TagLayout, index: usize) -> (r: &mut TagStructData)
        requires
            layout@.wf(),
            old(self)@.covered(layout@),
            old(self)@.can_grow(layout@),
            index <= old(self)@.elements.len(),
        ensures
            r@ == old(self)@.inserted(layout@, index as int).elements[index as int],
            final(self)@ == old(self)@.inserted(layout@, index as int).with_element(
                index as int,
                final(r)@,
            ),
    {
        let ghost start = self@;
        let struct_index: usize = self.element_struct_index(layout);
        let size: usize = self.element_size(layout);
        let total: usize = self.raw_data.len();
        proof {
            lemma_size_nonnegative(start, layout@);
            lemma_place(start.elements.len() as int, size as int, index as int);
        }
        self.ensure_h2_classic_header_for_nonempty(layout, size);
        self.mark_classic_structural_dirty();
        let ghost trees = self.elements@;
        let fresh_bytes: Vec<u8> = zero_bytes(size);
        assert(fresh_bytes@ =~= zeros(size as int));
        self.raw_data = insert_bytes(&self.raw_data, index * size, &fresh_bytes);
        let fresh: TagStructData = TagStructData::new_default(
            layout,
            struct_index,
            self.big_endian,
        );
        proof {
            lemma_data_insert(trees, index as int, fresh);
        }
        self.elements.insert(index, fresh);
        let ghost before = self.elements@;
        let r = &mut self.elements[index];
        proof {
            lemma_data_update(before, index as int, *final(r));
        }
        r
    }

    /// Puts a fresh element at the end, and gives it out.
    pub fn add_element(&mut self, layout: &TagLayout) -> (r: &mut TagStructData)
        requires
            layout@.wf(),
            old(self)@.covered(layout@),
            old(self)@.can_grow(layout@),
        ensures
            r@ == old(self)@.appended(layout@).elements.last(),
            final(self)@ == old(self)@.appended(layout@).with_element(
                old(self)@.elements.len() as int,
                final(r)@,
            ),
    {
        let ghost start = self@;
        let struct_index: usize = self.element_struct_index(layout);
        let size: usize = self.element_size(layout);
        self.ensure_h2_classic_header_for_nonempty(layout, size);
        self.mark_classic_structural_dirty();
        let ghost trees = self.elements@;
        let fresh_bytes: Vec<u8> = zero_bytes(size);
        assert(fresh_bytes@ =~= zeros(size as int));
        let end: usize = self.raw_data.len();
        self.raw_data = insert_bytes(&self.raw_data, end, &fresh_bytes);
        assert(self.raw_data@ =~= start.raw + zeros(size as int));
        let fresh: TagStructData = TagStructData::new_default(
            layout,
            struct_index,
            self.big_endian,
        );
        proof {
            lemma_struct_data_push(trees, fresh);
        }
        let last: usize = self.elements.len();
        self.elements.push(fresh);
        let ghost before = self.elements@;
        let r = &mut self.elements[last];
        proof {
            lemma_data_update(before, last as int, *final(r));
        }
        r
    }

    /// Puts a copy of element `index` behind it, and gives the copy out.
    pub fn duplicate_element(&mut self, layout: &TagLayout, index: usize) -> (r: &mut TagStructData)
        requires
            layout@.wf(),
            old(self)@.covered(layout@),
            index < old(self)@.elements.len(),
        ensures
            r@ == old(self)@.elements[index as int],
            final(self)@ == old(self)@.duplicated(layout@, index as int).with_element(
                index + 1,
                final(r)@,
            ),
    {
        let ghost start = self@;
        let size: usize = self.element_size(layout);
        let total: usize = self.raw_data.len();
        proof {
            lemma_size_nonnegative(start, layout@);
            lemma_room(start.elements.len() as int, size as int, index as int);
        }
        self.mark_classic_structural_dirty();
        let ghost trees = self.elements@;
        let copied: Vec<u8> = copy_of_range(&self.raw_data, index * size, index * size + size);
        assert(copied@ =~= start.bytes_of(layout@, index as int));
        self.raw_data = insert_bytes(&self.raw_data, index * size + size, &copied);
        let count: usize = self.elements.len();
        let tree: TagStructData = self.elements[index].duplicate();
        assert(tree@ == start.elements[index as int]);
        proof {
            lemma_data_insert(trees, index + 1, tree);
        }
        self.elements.insert(index + 1, tree);
        let ghost before = self.elements@;
        let r = &mut self.elements[index + 1];
        proof {
            lemma_data_update(before, index + 1, *final(r));
        }
        r
    }

    /// Takes element `index` out.
    pub fn remove_element(&mut self, layout: &TagLayout, index: usize)
        requires
            layout@.wf(),
            old(self)@.covered(layout@),
            index < old(self)@.elements.len(),
        ensures
            final(self)@ == old(self)@.removed(layout@, index as int),
    {
        let ghost start = self@;
        let size: usize = self.element_size(layout);
        let total: usize = self.raw_data.len();
        proof {
            lemma_size_nonnegative(start, layout@);
            lemma_room(start.elements.len() as int, size as int, index as int);
        }
        self.mark_classic_structural_dirty();
        let ghost trees = self.elements@;
        self.raw_data = without_bytes(&self.raw_data, index * size, index * size + size);
        proof {
            lemma_data_remove(trees, index as int);
        }
        let _ = self.elements.remove(index);
    }

    /// Puts elements `i` and `j` in each other's place.
    pub fn swap_elements(&mut self, layout: &TagLayout, i: usize, j: usize)
        requires
            layout@.wf(),
            old(self)@.covered(layout@),
            i < old(self)@.elements.len(),
            j < old(self)@.elements.len(),
        ensures
            final(self)@ == old(self)@.swapped(layout@, i as int, j as int),
    {
        if i == j {
            return;
        }
        let ghost start = self@;
        let size: usize = self.element_size(layout);
        let total: usize = self.raw_data.len();
        proof {
            lemma_size_nonnegative(start, layout@);
            lemma_room(start.elements.len() as int, size as int, i as int);
            lemma_room(start.elements.len() as int, size as int, j as int);
        }
        self.mark_classic_structural_dirty();
        let ghost trees = self.elements@;
        let first: Vec<u8> = copy_of_range(&self.raw_data, i * size, i * size + size);
        let second: Vec<u8> = copy_of_range(&self.raw_data, j * size, j * size + size);
        self.raw_data = replace_bytes(&self.raw_data, i * size, &second);
        self.raw_data = replace_bytes(&self.raw_data, j * size, &first);
        let tree: TagStructData = self.elements[i].duplicate();
        let other: TagStructData = self.elements[j].duplicate();
        self.elements[i] = other;
        self.elements[j] = tree;
        assert(struct_data_views(self.elements@) =~= start.elements.update(
            i as int,
            start.elements[j as int],
        ).update(j as int, start.elements[i as int])) by {
            assert(tree@ == start.elements[i as int]);
            assert(other@ == start.elements[j as int]);
        }
    }

    /// Moves element `from` to `to`, which is its place in the new order.
    pub fn move_element(&mut self, layout: &TagLayout, from: usize, to: usize)
        requires
            layout@.wf(),
            old(self)@.covered(layout@),
            from < old(self)@.elements.len(),
            to < old(self)@.elements.len(),
        ensures
            final(self)@ == old(self)@.moved(layout@, from as int, to as int),
    {
        if from == to {
            return;
        }
        let ghost start = self@;
        let size: usize = self.element_size(layout);
        let total: usize = self.raw_data.len();
        let n: usize = self.elements.len();
        proof {
            lemma_size_nonnegative(start, layout@);
            lemma_room(n as int, size as int, from as int);
            lemma_place(n - 1, size as int, to as int);
            assert((n - 1) * size == n * size - size) by (nonlinear_arith)
                requires
                    n >= 1,
            ;
        }
        self.mark_classic_structural_dirty();
        let ghost trees = self.elements@;
        let bytes: Vec<u8> = copy_of_range(&self.raw_data, from * size, from * size + size);
        assert(bytes@ =~= start.bytes_of(layout@, from as int));
        self.raw_data = without_bytes(&self.raw_data, from * size, from * size + size);
        self.raw_data = insert_bytes(&self.raw_data, to * size, &bytes);
        proof {
            lemma_data_remove(trees, from as int);
        }
        let tree: TagStructData = self.elements.remove(from);
        assert(tree@ == start.elements[from as int]);
        proof {
            lemma_data_insert(self.elements@, to as int, tree);
        }
        self.elements.insert(to, tree);
    }

    /// Takes every element out.
    pub fn clear(&mut self)
        ensures
            final(self)@ == old(self)@.emptied(),
    {
        self.mark_classic_structural_dirty();
        self.raw_data = no_bytes();
        self.elements = no_struct_data();
    }

    /// The bytes of element `i`.
    pub fn element_raw(&self, layout: &TagLayout, i: usize) -> (r: &[u8])
        requires
            layout@.wf(),
            self@.covered(layout@),
            i < self@.elements.len(),
        ensures
            r@ == self@.bytes_of(layout@, i as int),
    {
        let size: usize = self.element_size(layout);
        let total: usize = self.raw_data.len();
        proof {
            lemma_size_nonnegative(self@, layout@);
            lemma_room(self@.elements.len() as int, size as int, i as int);
        }
        slice_subrange(self.raw_data.as_slice(), i * size, i * size + size)
    }

    /// Every element, its bytes and its tree.
    pub fn iter_elements<'a>(&'a self, layout: &TagLayout) -> (r: Vec<(&'a [u8], &'a TagStructData)>)
        requires
            layout@.wf(),
            self@.covered(layout@),
        ensures
            r@.len() == self@.elements.len(),
            forall|i: int|
                0 <= i < r@.len() ==> (#[trigger] r@[i]).0@ == self@.bytes_of(layout@, i)
                    && r@[i].1@ == self@.elements[i],
    {
        let mut r: Vec<(&'a [u8], &'a TagStructData)> = Vec::new();
        let mut i: usize = 0;
        while i < self.elements.len()
            invariant
                i <= self.elements.len(),
                layout@.wf(),
                self@.covered(layout@),
                r@.len() == i,
                forall|j: int|
                    0 <= j < i ==> (#[trigger] r@[j]).0@ == self@.bytes_of(layout@, j) && r@[j].1@
                        == self@.elements[j],
            decreases self.elements.len() - i,
        {
            assert(self@.elements[i as int] == self.elements@[i as int]@);
            r.push((self.element_raw(layout, i), &self.elements[i]));
            i = i + 1;
        }
        r
    }

    /// A block with exactly one fresh element: the root of a new tag.
    pub fn new_root_default(layout: &TagLayout, block_index: u32, big_endian: bool) -> (r:
        TagBlockData)
        requires
            layout@.wf(),
            block_index < layout@.blocks.len(),
        ensures
            r@ == root_data(layout@, block_index, big_endian),
    {
        let index: u32 = layout.block_layouts[block_index as usize].struct_index;
        assert(index == layout@.blocks[block_index as int].struct_index);
        let size: usize = layout.struct_layouts[index as usize].size;
        let mut elements: Vec<TagStructData> = no_struct_data();
        let fresh: TagStructData = TagStructData::new_default(layout, index as usize, big_endian);
        proof {
            lemma_struct_data_push(elements@, fresh);
        }
        elements.push(fresh);
        let r: TagBlockData = TagBlockData {
            block_index,
            flags: 0,
            raw_data: zero_bytes(size),
            big_endian,
            elements,
            classic_block_header: None,
            classic_structural_dirty: false,
            classic_trailing: None,
        };
        assert(r@.raw =~= zeros(size as int));
        assert(r@.elements =~= seq![fresh@]);
        r
    }
}

/// The root of a new tag: one fresh element, all of its bytes zero.
pub open spec fn root_data(layout: LayoutView, block_index: u32, big_endian: bool) -> BlockDataView {
    let index = layout.blocks[block_index as int].struct_index;
    BlockDataView {
        block_index,
        flags: 0,
        raw: zeros(layout.structs[index as int].size as int),
        big_endian,
        elements: seq![fresh_data(layout, index, big_endian)],
        header: None,
        dirty: false,
        trailing: None,
    }
}

// ---------------------------------------------------------------------------
// Laws
// ---------------------------------------------------------------------------
/// Whether the layout's structs are numbered by their places.
pub open spec fn numbered_structs(layout: LayoutView) -> bool {
    forall|i: int| 0 <= i < layout.structs.len() ==> (#[trigger] layout.structs[i]).index == i
}

proof fn lemma_inserted_size(b: BlockDataView, layout: LayoutView, index: int)
    requires
        layout.wf(),
        b.whole(layout),
        0 <= index <= b.elements.len(),
    ensures
        b.inserted(layout, index).whole(layout),
        b.inserted(layout, index).element_size(layout) == b.element_size(layout),
{
    let size = b.element_size(layout);
    let n = b.elements.len() as int;
    lemma_size_nonnegative(b, layout);
    lemma_place(n, size, index);
    let after = b.inserted(layout, index);
    assert(after.raw.len() == n * size + size);
    assert((n + 1) * size == n * size + size) by (nonlinear_arith);
    lemma_size_back(n + 1, size);
    if size == 0 && n > 0 {
        assert(n * size == 0) by (nonlinear_arith)
            requires
                size == 0,
        ;
    }
}

/// Every operation that brings an element or moves one keeps the block whole, and
/// keeps the size of its elements.
pub proof fn insertion_keeps_a_block_whole(b: BlockDataView, layout: LayoutView, index: int)
    requires
        layout.wf(),
        numbered_structs(layout),
        b.whole(layout),
        b.can_grow(layout),
        0 <= index <= b.elements.len(),
    ensures
        b.inserted(layout, index).whole(layout),
        b.inserted(layout, index).can_grow(layout),
        b.inserted(layout, index).element_size(layout) == b.element_size(layout),
        b.inserted(layout, index).elements.len() == b.elements.len() + 1,
        b.inserted(layout, index).dirty,
{
    lemma_inserted_size(b, layout, index);
    let after = b.inserted(layout, index);
    let fresh = fresh_data(layout, b.element_struct(layout), b.big_endian);
    assert(fresh.struct_index == b.element_struct(layout));
    if index > 0 {
        assert(after.elements[0] == b.elements[0]);
    } else {
        assert(after.elements[0] == fresh);
    }
}

/// To add an element is to insert it behind the last.
pub proof fn adding_is_inserting_at_the_end(b: BlockDataView, layout: LayoutView)
    requires
        b.whole(layout),
    ensures
        b.appended(layout) == b.inserted(layout, b.elements.len() as int),
{
    let n = b.elements.len() as int;
    assert(b.appended(layout).raw =~= b.inserted(layout, n).raw);
    assert(b.appended(layout).elements =~= b.inserted(layout, n).elements);
}

/// Taking out the element that was just put in gives the block back, but for the
/// mark that it was changed and a header that it has gained.
pub proof fn removal_undoes_insertion(b: BlockDataView, layout: LayoutView, index: int)
    requires
        layout.wf(),
        b.whole(layout),
        0 <= index <= b.elements.len(),
    ensures
        b.inserted(layout, index).removed(layout, index) == (BlockDataView {
            dirty: true,
            header: b.header_for_first(layout),
            ..b
        }),
{
    lemma_inserted_size(b, layout, index);
    let size = b.element_size(layout);
    let n = b.elements.len() as int;
    lemma_size_nonnegative(b, layout);
    lemma_place(n, size, index);
    assert((index + 1) * size == index * size + size) by (nonlinear_arith);
    let after = b.inserted(layout, index).removed(layout, index);
    assert(after.raw =~= b.raw);
    assert(after.elements =~= b.elements);
}

/// A duplicated element has the bytes and the tree of its original, and the
/// block stays whole.
pub proof fn a_duplicate_is_like_its_original(b: BlockDataView, layout: LayoutView, index: int)
    requires
        layout.wf(),
        b.whole(layout),
        0 <= index < b.elements.len(),
    ensures
        b.duplicated(layout, index).whole(layout),
        b.duplicated(layout, index).element_size(layout) == b.element_size(layout),
        b.duplicated(layout, index).bytes_of(layout, index + 1) == b.bytes_of(layout, index),
        b.duplicated(layout, index).bytes_of(layout, index) == b.bytes_of(layout, index),
        b.duplicated(layout, index).elements[index + 1] == b.elements[index],
        b.duplicated(layout, index).elements[index] == b.elements[index],
{
    let size = b.element_size(layout);
    let n = b.elements.len() as int;
    lemma_size_nonnegative(b, layout);
    lemma_room(n, size, index);
    let after = b.duplicated(layout, index);
    assert((n + 1) * size == n * size + size) by (nonlinear_arith);
    assert(after.raw.len() == n * size + size);
    lemma_size_back(n + 1, size);
    if size == 0 {
        assert(n * size == 0) by (nonlinear_arith)
            requires
                size == 0,
        ;
    }
    if index + 1 > 0 {
        assert(after.elements[0] == b.elements[0]);
    }
    assert((index + 2) * size == (index + 1) * size + size) by (nonlinear_arith);
    assert(after.bytes_of(layout, index + 1) =~= b.bytes_of(layout, index));
    assert(after.bytes_of(layout, index) =~= b.bytes_of(layout, index));
}

/// Swapping two elements twice gives the block back, but for the mark that it was
/// changed.
pub proof fn swapping_twice_changes_nothing(b: BlockDataView, layout: LayoutView, i: int, j: int)
    requires
        layout.wf(),
        b.whole(layout),
        0 <= i < b.elements.len(),
        0 <= j < b.elements.len(),
        i != j,
    ensures
        b.swapped(layout, i, j).swapped(layout, i, j) == (BlockDataView { dirty: true, ..b }),
{
    let size = b.element_size(layout);
    let n = b.elements.len() as int;
    lemma_size_nonnegative(b, layout);
    lemma_room(n, size, i);
    lemma_room(n, size, j);
    if i < j {
        lemma_order(size, i, j);
    } else {
        lemma_order(size, j, i);
    }
    let once = b.swapped(layout, i, j);
    assert(once.raw.len() == b.raw.len());
    assert(once.element_size(layout) == size);
    assert(once.bytes_of(layout, i) =~= b.bytes_of(layout, j));
    assert(once.bytes_of(layout, j) =~= b.bytes_of(layout, i));
    let twice = once.swapped(layout, i, j);
    assert(twice.raw =~= b.raw);
    assert(twice.elements =~= b.elements);
}

/// Moving an element and moving it back gives the block back, but for the mark
/// that it was changed.
pub proof fn moving_back_undoes_a_move(b: BlockDataView, layout: LayoutView, from: int, to: int)
    requires
        layout.wf(),
        b.whole(layout),
        0 <= from < b.elements.len(),
        0 <= to < b.elements.len(),
        from != to,
    ensures
        b.moved(layout, from, to).moved(layout, to, from) == (BlockDataView { dirty: true, ..b }),
{
    let size = b.element_size(layout);
    let n = b.elements.len() as int;
    lemma_size_nonnegative(b, layout);
    lemma_room(n, size, from);
    lemma_room(n, size, to);
    lemma_place(n - 1, size, to);
    lemma_place(n - 1, size, from);
    assert((n - 1) * size == n * size - size) by (nonlinear_arith)
        requires
            n >= 1,
    ;
    let out = b.removed(layout, from);
    let once = b.moved(layout, from, to);
    assert(once.raw.len() == b.raw.len());
    assert(once.elements.len() == b.elements.len());
    assert(once.element_size(layout) == size);
    assert(once.bytes_of(layout, to) =~= b.bytes_of(layout, from));
    assert(once.elements[to] == b.elements[from]);
    let out2 = once.removed(layout, to);
    assert(out2.raw =~= out.raw);
    assert(out2.elements =~= out.elements);
    let twice = once.moved(layout, to, from);
    assert(twice.raw =~= b.raw);
    assert(twice.elements =~= b.elements);
}

/// A new tag's root is whole.
pub proof fn a_new_root_is_whole(layout: LayoutView, block_index: u32, big_endian: bool)
    requires
        layout.wf(),
        numbered_structs(layout),
        block_index < layout.blocks.len(),
    ensures
        root_data(layout, block_index, big_endian).whole(layout),
        root_data(layout, block_index, big_endian).can_grow(layout),
{
    let b = root_data(layout, block_index, big_endian);
    let size = b.raw.len() as int;
    if size > 0 {
        lemma_size_back(1, size);
        assert(1 * size == size);
    }
    assert(b.elements[0].struct_index == layout.blocks[block_index as int].struct_index);
}

}
