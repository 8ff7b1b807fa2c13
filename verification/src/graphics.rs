//! The renderer's per-frame decisions: which queue each node goes to, the
//! order of draw calls, the viewport, and the frame semaphore ring.
use vstd::prelude::*;
use crate::gfx_helper::FrameBuffer;
use crate::render_queue::{
    lemma_each_mesh_drawn_once, lemma_push_keeps_consistent, lemma_push_node_law, mesh_is_drawn,
    QueueModel, QueueNode,
    QueueType, RenderQueue,
};

verus! {

/// A width and height in pixels.
#[derive(Clone, Copy, Debug, PartialEq, Eq, Structural)]
pub struct Extent2D {
    pub width: u32,
    pub height: u32,
}

/// A viewport rectangle.
#[derive(Clone, Copy, Debug, PartialEq, Eq, Structural)]
pub struct Rect {
    pub x: i16,
    pub y: i16,
    pub w: i16,
    pub h: i16,
}

/// The queue after the nodes of `nodes` that belong to queue `which` are
/// pushed onto `q`, in order.
pub open spec fn routed<S, M, X>(
    q: QueueModel<S, M, X>,
    nodes: Seq<QueueNode<S, M, X>>,
    which: QueueType,
) -> QueueModel<S, M, X>
    decreases nodes.len(),
{
    if nodes.len() == 0 {
        q
    } else {
        let prev = routed(q, nodes.drop_last(), which);
        if nodes.last().queue_type == which {
            prev.pushed(nodes.last())
        } else {
            prev
        }
    }
}

/// Routing nodes onto a consistent queue keeps it consistent, and the
/// queue's meshes grow by the meshes of the routed nodes, in order.
pub proof fn lemma_routed_consistent<S, M, X>(
    q: QueueModel<S, M, X>,
    nodes: Seq<QueueNode<S, M, X>>,
    which: QueueType,
)
    requires
        q.is_consistent(),
        q.shader_ids.len() + nodes.len() <= usize::MAX,
        q.material_ids.len() + nodes.len() <= usize::MAX,
        q.meshes.len() + nodes.len() <= usize::MAX,
    ensures
        routed(q, nodes, which).is_consistent(),
        routed(q, nodes, which).shader_ids.len() <= q.shader_ids.len() + nodes.len(),
        routed(q, nodes, which).material_ids.len() <= q.material_ids.len() + nodes.len(),
        routed(q, nodes, which).meshes == q.meshes + nodes.filter(
            |n: QueueNode<S, M, X>| n.queue_type == which,
        ).map_values(|n: QueueNode<S, M, X>| n.mesh),
    decreases nodes.len(),
{
    let pred = |n: QueueNode<S, M, X>| n.queue_type == which;
    let mesh_of = |n: QueueNode<S, M, X>| n.mesh;
    reveal_with_fuel(Seq::<_>::filter, 1);
    if nodes.len() == 0 {
        assert(nodes.filter(pred) =~= Seq::<QueueNode<S, M, X>>::empty());
        assert(q.meshes + nodes.filter(pred).map_values(mesh_of) =~= q.meshes);
    } else {
        let init = nodes.drop_last();
        lemma_routed_consistent(q, init, which);
        let prev = routed(q, init, which);
        let f = init.filter(pred);
        if nodes.last().queue_type == which {
            lemma_push_keeps_consistent(prev, nodes.last());
            assert(nodes.filter(pred) == f.push(nodes.last()));
            assert(f.push(nodes.last()).map_values(mesh_of) =~= f.map_values(mesh_of).push(
                nodes.last().mesh,
            ));
            assert(q.meshes + f.map_values(mesh_of).push(nodes.last().mesh) =~= (q.meshes
                + f.map_values(mesh_of)).push(nodes.last().mesh));
        } else {
            assert(nodes.filter(pred) == f);
        }
    }
}

/// Some node of `f` carries material `material_id` with shader `shader_id`.
pub open spec fn carried_by<S, M, X>(
    f: Seq<QueueNode<S, M, X>>,
    material_id: u128,
    shader_id: u128,
) -> bool {
    exists|j: int| 0 <= j < f.len() && #[trigger] f[j].material_id == material_id && f[j].shader_id == shader_id
}

/// Some node of `f` carries shader `shader` under id `shader_id`.
pub open spec fn shader_given_by<S, M, X>(
    f: Seq<QueueNode<S, M, X>>,
    shader_id: u128,
    shader: S,
) -> bool {
    exists|j: int| 0 <= j < f.len() && #[trigger] f[j].shader_id == shader_id && f[j].shader == shader
}

/// Some node of `f` carries material `material` under id `material_id`.
pub open spec fn material_given_by<S, M, X>(
    f: Seq<QueueNode<S, M, X>>,
    material_id: u128,
    material: M,
) -> bool {
    exists|j: int|
        0 <= j < f.len() && #[trigger] f[j].material_id == material_id && f[j].material == material
}

/// What routing does, in terms of the nodes of queue `which` (taken in
/// order): each such node's shader and material are queued afterwards, each
/// gives one mesh carrying its material id, what was queued stays in place,
/// every shader and material added comes from a routed node, and every
/// material added is recorded under the shader of a routed node that
/// carries it.
#[verifier::spinoff_prover]
#[verifier::rlimit(40)]
pub proof fn lemma_routed_law<S, M, X>(
    q: QueueModel<S, M, X>,
    nodes: Seq<QueueNode<S, M, X>>,
    which: QueueType,
)
    requires
        q.is_consistent(),
        q.shader_ids.len() + nodes.len() <= usize::MAX,
        q.material_ids.len() + nodes.len() <= usize::MAX,
        q.meshes.len() + nodes.len() <= usize::MAX,
    ensures
        ({
            let r = routed(q, nodes, which);
            let f = nodes.filter(|n: QueueNode<S, M, X>| n.queue_type == which);
            &&& r.mesh_material_ids == q.mesh_material_ids + f.map_values(
                |n: QueueNode<S, M, X>| n.material_id,
            )
            &&& r.meshes == q.meshes + f.map_values(|n: QueueNode<S, M, X>| n.mesh)
            &&& forall|j: int|
                0 <= j < f.len() ==> r.shader_ids.contains(#[trigger] f[j].shader_id)
                    && r.material_ids.contains(f[j].material_id)
            &&& q.shader_ids.len() <= r.shader_ids.len()
            &&& q.material_ids.len() <= r.material_ids.len()
            &&& forall|i: int|
                #![trigger r.shader_ids[i]]
                #![trigger r.shaders[i]]
                0 <= i < q.shader_ids.len() ==> r.shader_ids[i] == q.shader_ids[i] && r.shaders[i]
                    == q.shaders[i]
            &&& forall|i: int|
                #![trigger r.material_ids[i]]
                #![trigger r.materials[i]]
                0 <= i < q.material_ids.len() ==> r.material_ids[i] == q.material_ids[i]
                    && r.material_shader_ids[i] == q.material_shader_ids[i] && r.materials[i]
                    == q.materials[i]
            &&& forall|i: int|
                q.material_ids.len() <= i < r.material_ids.len() ==> carried_by(
                    f,
                    #[trigger] r.material_ids[i],
                    r.material_shader_ids[i],
                )
            &&& forall|i: int|
                q.shader_ids.len() <= i < r.shader_ids.len() ==> shader_given_by(
                    f,
                    #[trigger] r.shader_ids[i],
                    r.shaders[i],
                )
            &&& forall|i: int|
                q.material_ids.len() <= i < r.material_ids.len() ==> material_given_by(
                    f,
                    #[trigger] r.material_ids[i],
                    r.materials[i],
                )
        }),
    decreases nodes.len(),
{
    let pred = |n: QueueNode<S, M, X>| n.queue_type == which;
    let mat_of = |n: QueueNode<S, M, X>| n.material_id;
    let mesh_of = |n: QueueNode<S, M, X>| n.mesh;
    reveal_with_fuel(Seq::<_>::filter, 1);
    lemma_routed_consistent(q, nodes, which);
    if nodes.len() == 0 {
        assert(nodes.filter(pred) =~= Seq::<QueueNode<S, M, X>>::empty());
        assert(q.mesh_material_ids + nodes.filter(pred).map_values(mat_of) =~= q.mesh_material_ids);
    } else {
        let init = nodes.drop_last();
        lemma_routed_law(q, init, which);
        lemma_routed_consistent(q, init, which);
        let prev = routed(q, init, which);
        let f0 = init.filter(pred);
        let r = routed(q, nodes, which);
        let n = nodes.last();
        if n.queue_type == which {
            lemma_push_node_law(prev, n);
            let f = f0.push(n);
            assert(nodes.filter(pred) == f);
            assert(f.map_values(mat_of) =~= f0.map_values(mat_of).push(n.material_id));
            assert(r.mesh_material_ids =~= q.mesh_material_ids + f.map_values(mat_of));
            assert(f.map_values(mesh_of) =~= f0.map_values(mesh_of).push(n.mesh));
            assert(r.meshes =~= q.meshes + f.map_values(mesh_of));
            assert forall|j: int| 0 <= j < f.len() implies r.shader_ids.contains(
                #[trigger] f[j].shader_id,
            ) && r.material_ids.contains(f[j].material_id) by {
                if j < f0.len() {
                    assert(f[j] == f0[j]);
                    assert(prev.shader_ids.contains(f0[j].shader_id));
                    let a = choose|a: int| 0 <= a < prev.shader_ids.len() && prev.shader_ids[a] == f0[j].shader_id;
                    assert(r.shader_ids[a] == prev.shader_ids[a]);
                    assert(prev.material_ids.contains(f0[j].material_id));
                    let b = choose|b: int| 0 <= b < prev.material_ids.len() && prev.material_ids[b] == f0[j].material_id;
                    assert(r.material_ids[b] == prev.material_ids[b]);
                }
            }
            assert forall|i: int|
                q.material_ids.len() <= i < r.material_ids.len() implies carried_by(
                f,
                #[trigger] r.material_ids[i],
                r.material_shader_ids[i],
            ) by {
                if i < prev.material_ids.len() {
                    assert(carried_by(f0, prev.material_ids[i], prev.material_shader_ids[i]));
                    let j = choose|j: int|
                        0 <= j < f0.len() && #[trigger] f0[j].material_id == prev.material_ids[i]
                            && f0[j].shader_id == prev.material_shader_ids[i];
                    assert(f[j] == f0[j]);
                } else {
                    assert(f[f0.len() as int] == n);
                }
            }
            assert forall|i: int| 0 <= i < q.shader_ids.len() implies r.shader_ids[i]
                == q.shader_ids[i] && #[trigger] r.shaders[i] == q.shaders[i] by {
                assert(prev.shader_ids[i] == q.shader_ids[i] && prev.shaders[i] == q.shaders[i]);
            }
            assert forall|i: int| 0 <= i < q.material_ids.len() implies r.material_ids[i]
                == q.material_ids[i] && r.material_shader_ids[i] == q.material_shader_ids[i]
                && #[trigger] r.materials[i] == q.materials[i] by {
                assert(prev.material_ids[i] == q.material_ids[i] && prev.materials[i]
                    == q.materials[i]);
            }
            assert forall|i: int|
                q.shader_ids.len() <= i < r.shader_ids.len() implies shader_given_by(
                f,
                #[trigger] r.shader_ids[i],
                r.shaders[i],
            ) by {
                if i < prev.shader_ids.len() {
                    assert(shader_given_by(f0, prev.shader_ids[i], prev.shaders[i]));
                    let j = choose|j: int|
                        0 <= j < f0.len() && #[trigger] f0[j].shader_id == prev.shader_ids[i]
                            && f0[j].shader == prev.shaders[i];
                    assert(f[j] == f0[j]);
                } else {
                    assert(f[f0.len() as int] == n);
                }
            }
            assert forall|i: int|
                q.material_ids.len() <= i < r.material_ids.len() implies material_given_by(
                f,
                #[trigger] r.material_ids[i],
                r.materials[i],
            ) by {
                if i < prev.material_ids.len() {
                    assert(material_given_by(f0, prev.material_ids[i], prev.materials[i]));
                    let j = choose|j: int|
                        0 <= j < f0.len() && #[trigger] f0[j].material_id == prev.material_ids[i]
                            && f0[j].material == prev.materials[i];
                    assert(f[j] == f0[j]);
                } else {
                    assert(f[f0.len() as int] == n);
                }
            }
        } else {
            assert(nodes.filter(pred) == f0);
        }
    }
}

/// Every node kept by a filter is a node of the sequence filtered.
proof fn lemma_filtered_from<S, M, X>(
    nodes: Seq<QueueNode<S, M, X>>,
    pred: spec_fn(QueueNode<S, M, X>) -> bool,
)
    ensures
        forall|j: int| 0 <= j < nodes.filter(pred).len() ==> nodes.contains(#[trigger] nodes.filter(pred)[j]),
    decreases nodes.len(),
{
    reveal_with_fuel(Seq::<_>::filter, 1);
    if nodes.len() > 0 {
        let init = nodes.drop_last();
        lemma_filtered_from(init, pred);
        let f0 = init.filter(pred);
        assert forall|j: int| 0 <= j < nodes.filter(pred).len() implies nodes.contains(
            #[trigger] nodes.filter(pred)[j],
        ) by {
            if j < f0.len() {
                assert(nodes.filter(pred)[j] == f0[j]);
                assert(init.contains(f0[j]));
                let a = choose|a: int| 0 <= a < init.len() && init[a] == f0[j];
                assert(nodes[a] == init[a]);
            } else {
                assert(nodes.filter(pred)[j] == nodes.last());
                assert(nodes[nodes.len() - 1] == nodes.last());
            }
        }
    }
}

/// In a planned frame, each step draws its mesh with the material of the
/// node that gave the mesh, under that node's shader, provided that nodes
/// sharing a material id share a shader id.
pub proof fn lemma_frame_draws_nodes_with_own_shader<S, M, X>(
    nodes: Seq<QueueNode<S, M, X>>,
    plan: Seq<(usize, usize, usize)>,
)
    requires
        nodes.len() <= usize::MAX,
        forall|a: int, b: int|
            0 <= a < nodes.len() && 0 <= b < nodes.len() && #[trigger] nodes[a].material_id
                == #[trigger] nodes[b].material_id ==> nodes[a].shader_id == nodes[b].shader_id,
        routed(QueueModel::<S, M, X>::empty(), nodes, QueueType::Geometry).is_draw_order(plan),
    ensures
        ({
            let r = routed(QueueModel::<S, M, X>::empty(), nodes, QueueType::Geometry);
            let f = nodes.filter(|n: QueueNode<S, M, X>| n.queue_type == QueueType::Geometry);
            &&& r.meshes.len() == f.len()
            &&& forall|k: int|
                0 <= k < plan.len() ==> r.shader_ids[(#[trigger] plan[k]).0 as int]
                    == f[plan[k].2 as int].shader_id && r.material_ids[plan[k].1 as int]
                    == f[plan[k].2 as int].material_id
        }),
{
    let e = QueueModel::<S, M, X>::empty();
    let pred = |n: QueueNode<S, M, X>| n.queue_type == QueueType::Geometry;
    let f = nodes.filter(pred);
    lemma_push_keeps_consistent(e, nodes[0]);
    lemma_routed_law(e, nodes, QueueType::Geometry);
    let r = routed(e, nodes, QueueType::Geometry);
    assert(r.mesh_material_ids =~= f.map_values(|n: QueueNode<S, M, X>| n.material_id));
    assert(r.meshes =~= f.map_values(|n: QueueNode<S, M, X>| n.mesh));
    lemma_filtered_from(nodes, pred);
    assert forall|k: int| 0 <= k < plan.len() implies r.shader_ids[(#[trigger] plan[k]).0 as int]
        == f[plan[k].2 as int].shader_id && r.material_ids[plan[k].1 as int]
        == f[plan[k].2 as int].material_id by {
        let s = plan[k].0 as int;
        let m = plan[k].1 as int;
        let i = plan[k].2 as int;
        assert(r.is_draw_step(s, m, i));
        assert(r.mesh_material_ids[i] == f[i].material_id);
        assert(carried_by(f, r.material_ids[m], r.material_shader_ids[m]));
        let j = choose|j: int|
            0 <= j < f.len() && #[trigger] f[j].material_id == r.material_ids[m] && f[j].shader_id
                == r.material_shader_ids[m];
        assert(nodes.contains(f[j]));
        assert(nodes.contains(f[i]));
        let a = choose|a: int| 0 <= a < nodes.len() && nodes[a] == f[j];
        let b = choose|b: int| 0 <= b < nodes.len() && nodes[b] == f[i];
        assert(nodes[a].material_id == nodes[b].material_id);
    }
}

/// In a planned frame, every node of the geometry queue type gives one
/// queued mesh, in order, and each of those meshes is drawn exactly once.
pub proof fn lemma_frame_draws_each_geometry_node_once<S, M, X>(
    nodes: Seq<QueueNode<S, M, X>>,
    plan: Seq<(usize, usize, usize)>,
)
    requires
        nodes.len() <= usize::MAX,
        routed(QueueModel::<S, M, X>::empty(), nodes, QueueType::Geometry).is_draw_order(plan),
    ensures
        routed(QueueModel::<S, M, X>::empty(), nodes, QueueType::Geometry).meshes == nodes.filter(
            |n: QueueNode<S, M, X>| n.queue_type == QueueType::Geometry,
        ).map_values(|n: QueueNode<S, M, X>| n.mesh),
        forall|i: int|
            0 <= i < routed(
                QueueModel::<S, M, X>::empty(),
                nodes,
                QueueType::Geometry,
            ).meshes.len() ==> #[trigger] mesh_is_drawn(plan, i),
        forall|a: int, b: int|
            0 <= a < plan.len() && 0 <= b < plan.len() && #[trigger] plan[a].2 == #[trigger] plan[b].2
                ==> a == b,
{
    let e = QueueModel::<S, M, X>::empty();
    lemma_push_keeps_consistent(e, nodes[0]);
    lemma_routed_consistent(e, nodes, QueueType::Geometry);
    let q = routed(e, nodes, QueueType::Geometry);
    assert(e.meshes + nodes.filter(|n: QueueNode<S, M, X>| n.queue_type == QueueType::Geometry).map_values(
        |n: QueueNode<S, M, X>| n.mesh,
    ) =~= nodes.filter(|n: QueueNode<S, M, X>| n.queue_type == QueueType::Geometry).map_values(
        |n: QueueNode<S, M, X>| n.mesh,
    ));
    lemma_each_mesh_drawn_once(q, plan);
}

pub struct Graphics<S, M, X> {
    geometry_queue: RenderQueue<S, M, X>,
    transparent_queue: RenderQueue<S, M, X>,
    framebuffer: FrameBuffer,
    viewport: Rect,
}

impl<S, M, X> Graphics<S, M, X> {
    pub closed spec fn geometry(&self) -> QueueModel<S, M, X> {
        self.geometry_queue@
    }

    pub closed spec fn transparent(&self) -> QueueModel<S, M, X> {
        self.transparent_queue@
    }

    pub closed spec fn view_rect(&self) -> Rect {
        self.viewport
    }

    pub closed spec fn frames(&self) -> FrameBuffer {
        self.framebuffer
    }

    pub closed spec fn wf(&self) -> bool {
        &&& self.geometry_queue.wf()
        &&& self.transparent_queue.wf()
        &&& self.framebuffer.wf()
    }

    /// The viewport covering a swapchain image of size `extent`; each side
    /// is converted with `as i16`.
    pub fn create_viewport(extent: Extent2D) -> (r: Rect)
        ensures
            r == (Rect { x: 0, y: 0, w: extent.width as i16, h: extent.height as i16 }),
    {
        Rect { x: 0, y: 0, w: extent.width as i16, h: extent.height as i16 }
    }

    /// Empty queues, a viewport for `swapchain_extent`, and a semaphore ring
    /// for `frame_image_count` swapchain images.
    pub fn new(swapchain_extent: Extent2D, frame_image_count: usize) -> (r: Self)
        ensures
            r.wf(),
            r.geometry() == QueueModel::<S, M, X>::empty(),
            r.transparent() == QueueModel::<S, M, X>::empty(),
            r.view_rect() == Self::create_viewport_spec(swapchain_extent),
            r.frames().slots() == (if frame_image_count != 0 { frame_image_count as nat } else { 1 }),
            r.frames().cursor() == 0,
    {
        Graphics {
            geometry_queue: RenderQueue::new(),
            transparent_queue: RenderQueue::new(),
            framebuffer: FrameBuffer::new(frame_image_count),
            viewport: Self::create_viewport(swapchain_extent),
        }
    }

    pub open spec fn create_viewport_spec(extent: Extent2D) -> Rect {
        Rect { x: 0, y: 0, w: extent.width as i16, h: extent.height as i16 }
    }

    /// Pushes each node onto the queue of its shader's queue type, in order.
    pub fn pick_nodes_to_queue(&mut self, nodes: Vec<QueueNode<S, M, X>>)
        requires
            old(self).wf(),
        ensures
            final(self).wf(),
            final(self).geometry() == routed(old(self).geometry(), nodes@, QueueType::Geometry),
            final(self).transparent() == routed(
                old(self).transparent(),
                nodes@,
                QueueType::Transparent,
            ),
            final(self).frames() == old(self).frames(),
            final(self).view_rect() == old(self).view_rect(),
    {
        let ghost all = nodes@;
        let ghost g0 = self.geometry_queue@;
        let ghost t0 = self.transparent_queue@;
        for cur_node in it: nodes
            invariant
                self.wf(),
                all == it.seq(),
                self.geometry_queue@ == routed(g0, all.take(it.index() as int), QueueType::Geometry),
                self.transparent_queue@ == routed(
                    t0,
                    all.take(it.index() as int),
                    QueueType::Transparent,
                ),
                self.framebuffer == old(self).framebuffer,
                self.viewport == old(self).viewport,
        {
            let ghost k = it.index() as int;
            proof {
                assert(all.take(k + 1).drop_last() =~= all.take(k));
                assert(all.take(k + 1).last() == cur_node);
            }
            match cur_node.queue_type {
                QueueType::Geometry => self.geometry_queue.push_node(cur_node),
                QueueType::Transparent => self.transparent_queue.push_node(cur_node),
            }
        }
        proof {
            assert(all.take(all.len() as int) =~= all);
        }
    }

    /// Plans one frame: empties both queues, queues `nodes`, and returns the
    /// draw calls of the geometry queue (the queue that is drawn).
    pub fn draw(&mut self, nodes: Vec<QueueNode<S, M, X>>) -> (plan: Vec<(usize, usize, usize)>)
        requires
            old(self).wf(),
        ensures
            final(self).wf(),
            final(self).geometry() == routed(
                QueueModel::<S, M, X>::empty(),
                nodes@,
                QueueType::Geometry,
            ),
            final(self).transparent() == routed(
                QueueModel::<S, M, X>::empty(),
                nodes@,
                QueueType::Transparent,
            ),
            final(self).geometry().is_draw_order(plan@),
            final(self).frames() == old(self).frames(),
            final(self).view_rect() == old(self).view_rect(),
    {
        self.geometry_queue.clear();
        self.transparent_queue.clear();
        self.pick_nodes_to_queue(nodes);
        self.geometry_queue.draw_order()
    }

    /// The semaphore slot for the next frame; see
    /// `FrameBuffer::next_acq_pre_pair_index`.
    pub fn next_acq_pre_pair_index(&mut self) -> (r: usize)
        requires
            old(self).wf(),
        ensures
            final(self).wf(),
            r == old(self).frames().next_index(),
            r < old(self).frames().slots(),
            final(self).frames().slots() == old(self).frames().slots(),
            final(self).frames().cursor() == r + 1,
            final(self).geometry() == old(self).geometry(),
            final(self).transparent() == old(self).transparent(),
            final(self).view_rect() == old(self).view_rect(),
    {
        self.framebuffer.next_acq_pre_pair_index()
    }

    /// After the swapchain is made anew with images of size
    /// `swapchain_extent`: a fresh semaphore ring and a viewport that fits.
    pub fn recreate_swapchain(&mut self, swapchain_extent: Extent2D, frame_image_count: usize)
        requires
            old(self).wf(),
        ensures
            final(self).wf(),
            final(self).view_rect() == Self::create_viewport_spec(swapchain_extent),
            final(self).frames().slots() == (if frame_image_count != 0 {
                frame_image_count as nat
            } else {
                1
            }),
            final(self).frames().cursor() == 0,
            final(self).geometry() == old(self).geometry(),
            final(self).transparent() == old(self).transparent(),
    {
        self.framebuffer = FrameBuffer::new(frame_image_count);
        self.viewport = Self::create_viewport(swapchain_extent);
    }

    /// How many semaphore slots the frame ring has.
    pub fn frame_slot_count(&self) -> (r: usize)
        ensures
            r == self.frames().slots(),
    {
        self.framebuffer.slot_count()
    }

    pub fn viewport(&self) -> (r: Rect)
        ensures
            r == self.view_rect(),
    {
        self.viewport
    }

    pub fn geometry_queue(&self) -> (r: &RenderQueue<S, M, X>)
        ensures
            r@ == self.geometry(),
            self.wf() ==> r.wf(),
    {
        &self.geometry_queue
    }

    pub fn transparent_queue(&self) -> (r: &RenderQueue<S, M, X>)
        ensures
            r@ == self.transparent(),
            self.wf() ==> r.wf(),
    {
        &self.transparent_queue
    }
}

} // verus!
