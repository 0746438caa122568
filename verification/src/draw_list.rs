//! The lists that a renderer consumes: vertices, triangle indices into
//! them, and draw commands, each covering a run of indices drawn with one
//! scissor rectangle and one texture. Rectangles come in as four vertices;
//! a rectangle drawn like the one before it extends that command.
use vstd::prelude::*;

verus! {

/// A run of `index_count` indices, drawn clipped to `scissor_rect` with the
/// texture `texture_id`.
#[derive(Debug, Clone, Copy, PartialEq)]
pub struct DrawCommand<S> {
    pub scissor_rect: S,
    pub texture_id: u64,
    pub index_count: u32,
}

/// The indices that the commands `cmds` cover together.
pub open spec fn covered(cmds: Seq<DrawCommand<u8>>) -> int
    decreases cmds.len(),
{
    if cmds.len() == 0 {
        0
    } else {
        covered(cmds.drop_last()) + cmds.last().index_count
    }
}

/// The index counts of `cmds`, whatever their scissor rectangles.
pub open spec fn counts<S>(cmds: Seq<DrawCommand<S>>) -> Seq<DrawCommand<u8>> {
    cmds.map_values(|c: DrawCommand<S>| DrawCommand { scissor_rect: 0u8, texture_id: c.texture_id, index_count: c.index_count })
}

/// Vertices `V`, indices and commands with scissor rectangles `S`.
pub struct DrawList<V, S> {
    commands: Vec<DrawCommand<S>>,
    vertices: Vec<V>,
    indices: Vec<u32>,
}

/// The two triangles of a rectangle whose four vertices start at `base`:
/// the first three, then the last two and the first.
pub open spec fn quad_indices(base: u32) -> Seq<u32> {
    seq![base, (base + 1) as u32, (base + 2) as u32, (base + 2) as u32, (base + 3) as u32, base]
}

impl<V: Copy, S: Copy> DrawList<V, S> {
    pub closed spec fn spec_commands(&self) -> Seq<DrawCommand<S>> {
        self.commands@
    }

    pub closed spec fn spec_vertices(&self) -> Seq<V> {
        self.vertices@
    }

    pub closed spec fn spec_indices(&self) -> Seq<u32> {
        self.indices@
    }

    /// The vertices come in fours and the indices in sixes, one four and one
    /// six per rectangle; every index points at a vertex; the commands cover
    /// all indices, and none of them is empty.
    pub open spec fn well_formed(&self) -> bool {
        &&& self.spec_vertices().len() % 4 == 0
        &&& self.spec_indices().len() == self.spec_vertices().len() / 4 * 6
        &&& forall|i: int| 0 <= i < self.spec_indices().len() ==> #[trigger] self.spec_indices()[i] < self.spec_vertices().len()
        &&& covered(counts(self.spec_commands())) == self.spec_indices().len()
        &&& forall|k: int| 0 <= k < self.spec_commands().len() ==> #[trigger] self.spec_commands()[k].index_count > 0
    }

    /// An empty list.
    pub fn new() -> (r: Self)
        ensures
            r.spec_commands().len() == 0,
            r.spec_vertices().len() == 0,
            r.spec_indices().len() == 0,
            r.well_formed(),
    {
        let r = DrawList { commands: Vec::new(), vertices: Vec::new(), indices: Vec::new() };
        assert(counts(r.commands@) =~= Seq::<DrawCommand<u8>>::empty());
        r
    }

    pub fn commands(&self) -> (r: &[DrawCommand<S>])
        ensures
            r@ == self.spec_commands(),
    {
        self.commands.as_slice()
    }

    pub fn vertices(&self) -> (r: &[V])
        ensures
            r@ == self.spec_vertices(),
    {
        self.vertices.as_slice()
    }

    pub fn indices(&self) -> (r: &[u32])
        ensures
            r@ == self.spec_indices(),
    {
        self.indices.as_slice()
    }

    /// Adds a rectangle: its four vertices, its two triangles, and six more
    /// indices for the last command when `same_scissor` says that its
    /// scissor rectangle is `scissor_rect` and its texture is `texture_id`,
    /// else a new command for them.
    pub fn push_quad(&mut self, quad: [V; 4], scissor_rect: S, same_scissor: bool, texture_id: u64)
        requires
            old(self).spec_vertices().len() + 3 <= u32::MAX,
            old(self).spec_commands().len() > 0 && same_scissor && old(self).spec_commands().last().texture_id
                == texture_id ==> old(self).spec_commands().last().index_count + 6 <= u32::MAX,
        ensures
            final(self).spec_vertices() == old(self).spec_vertices() + quad@,
            final(self).spec_indices() == old(self).spec_indices() + quad_indices(
                old(self).spec_vertices().len() as u32,
            ),
            ({
                let cmds = old(self).spec_commands();
                let k = cmds.len() as int;
                if k > 0 && same_scissor && cmds[k - 1].texture_id == texture_id {
                    final(self).spec_commands() == cmds.update(
                        k - 1,
                        DrawCommand { index_count: (cmds[k - 1].index_count + 6) as u32, ..cmds[k - 1] },
                    )
                } else {
                    final(self).spec_commands() == cmds.push(
                        DrawCommand { scissor_rect: scissor_rect, texture_id: texture_id, index_count: 6 },
                    )
                }
            }),
            old(self).well_formed() ==> final(self).well_formed(),
    {
        let ghost old_list = *self;
        let base = self.vertices.len() as u32;
        self.vertices.push(quad[0]);
        self.vertices.push(quad[1]);
        self.vertices.push(quad[2]);
        self.vertices.push(quad[3]);
        self.indices.push(base);
        self.indices.push(base + 1);
        self.indices.push(base + 2);
        self.indices.push(base + 2);
        self.indices.push(base + 3);
        self.indices.push(base);
        assert(self.vertices@ =~= old_list.vertices@ + quad@);
        assert(self.indices@ =~= old_list.indices@ + quad_indices(base));
        let k = self.commands.len();
        if k > 0 && same_scissor && self.commands[k - 1].texture_id == texture_id {
            let last = self.commands[k - 1];
            self.commands.set(
                k - 1,
                DrawCommand {
                    scissor_rect: last.scissor_rect,
                    texture_id: last.texture_id,
                    index_count: last.index_count + 6,
                },
            );
            proof {
                let oc = counts(old_list.commands@);
                let nc = counts(self.commands@);
                assert(nc.drop_last() =~= oc.drop_last());
            }
        } else {
            self.commands.push(DrawCommand { scissor_rect, texture_id, index_count: 6 });
            proof {
                let oc = counts(old_list.commands@);
                let nc = counts(self.commands@);
                assert(nc.drop_last() =~= oc);
            }
        }
    }

    /// Empties the list.
    pub fn clear(&mut self)
        ensures
            final(self).spec_commands().len() == 0,
            final(self).spec_vertices().len() == 0,
            final(self).spec_indices().len() == 0,
            final(self).well_formed(),
    {
        self.commands.clear();
        self.vertices.clear();
        self.indices.clear();
        assert(counts(self.commands@) =~= Seq::<DrawCommand<u8>>::empty());
    }
}

} // verus!
