//! Per-frame render queue: groups queued meshes by shader and by material,
//! each shader and each material kept once, in the order first seen.
use std::collections::HashMap;
use vstd::prelude::*;

verus! {

broadcast use vstd::std_specs::hash::group_hash_axioms;

/// Which of the two per-frame queues a shader's nodes go to.
#[derive(Clone, Copy, Debug, PartialEq, Eq, Structural)]
pub enum QueueType {
    Geometry,
    Transparent,
}

/// What the queue reads of a render node: the ids of its shader and
/// material, the shader's queue, and the handles that the queue keeps.
pub struct QueueNode<S, M, X> {
    pub shader_id: u128,
    pub shader: S,
    pub material_id: u128,
    pub material: M,
    pub queue_type: QueueType,
    pub mesh: X,
}

/// The abstract content of a render queue.
pub struct QueueModel<S, M, X> {
    pub shader_ids: Seq<u128>,
    pub shaders: Seq<S>,
    pub material_ids: Seq<u128>,
    /// The id of each queued material's shader.
    pub material_shader_ids: Seq<u128>,
    pub materials: Seq<M>,
    /// The id of each queued mesh's material.
    pub mesh_material_ids: Seq<u128>,
    pub meshes: Seq<X>,
}

impl<S, M, X> QueueModel<S, M, X> {
    pub open spec fn empty() -> Self {
        QueueModel {
            shader_ids: Seq::empty(),
            shaders: Seq::empty(),
            material_ids: Seq::empty(),
            material_shader_ids: Seq::empty(),
            materials: Seq::empty(),
            mesh_material_ids: Seq::empty(),
            meshes: Seq::empty(),
        }
    }

    /// The queue after one node is pushed: its shader and its material are
    /// added unless one with the same id is queued already; its mesh is
    /// always added.
    pub open spec fn pushed(self, node: QueueNode<S, M, X>) -> Self {
        let new_shader = !self.shader_ids.contains(node.shader_id);
        let new_material = !self.material_ids.contains(node.material_id);
        QueueModel {
            shader_ids: if new_shader { self.shader_ids.push(node.shader_id) } else { self.shader_ids },
            shaders: if new_shader { self.shaders.push(node.shader) } else { self.shaders },
            material_ids: if new_material {
                self.material_ids.push(node.material_id)
            } else {
                self.material_ids
            },
            material_shader_ids: if new_material {
                self.material_shader_ids.push(node.shader_id)
            } else {
                self.material_shader_ids
            },
            materials: if new_material {
                self.materials.push(node.material)
            } else {
                self.materials
            },
            mesh_material_ids: self.mesh_material_ids.push(node.material_id),
            meshes: self.meshes.push(node.mesh),
        }
    }

    /// Mesh `i` is drawn with material `m` under shader `s`.
    pub open spec fn is_draw_step(self, s: int, m: int, i: int) -> bool {
        &&& 0 <= s < self.shader_ids.len()
        &&& 0 <= m < self.material_ids.len()
        &&& 0 <= i < self.meshes.len()
        &&& self.material_shader_ids[m] == self.shader_ids[s]
        &&& self.mesh_material_ids[i] == self.material_ids[m]
    }

    /// `plan` holds every draw step once, ordered by shader, then material,
    /// then mesh.
    pub open spec fn is_draw_order(self, plan: Seq<(usize, usize, usize)>) -> bool {
        &&& forall|k: int|
            0 <= k < plan.len() ==> #[trigger] self.is_draw_step(
                plan[k].0 as int,
                plan[k].1 as int,
                plan[k].2 as int,
            )
        &&& forall|s: int, m: int, i: int|
            #[trigger] self.is_draw_step(s, m, i) ==> plan.contains(
                (s as usize, m as usize, i as usize),
            )
        &&& forall|a: int, b: int|
            0 <= a < b < plan.len() ==> step_before(#[trigger] plan[a], #[trigger] plan[b])
    }
}

impl<S, M, X> QueueModel<S, M, X> {
    /// Ids are unique, every mesh's material is queued, and every
    /// material's shader is queued.
    pub open spec fn is_consistent(self) -> bool {
        &&& self.shaders.len() == self.shader_ids.len()
        &&& self.material_shader_ids.len() == self.material_ids.len()
        &&& self.materials.len() == self.material_ids.len()
        &&& self.mesh_material_ids.len() == self.meshes.len()
        &&& self.shader_ids.len() <= usize::MAX
        &&& self.material_ids.len() <= usize::MAX
        &&& self.meshes.len() <= usize::MAX
        &&& self.shader_ids.no_duplicates()
        &&& self.material_ids.no_duplicates()
        &&& forall|i: int|
            0 <= i < self.meshes.len() ==> self.material_ids.contains(
                #[trigger] self.mesh_material_ids[i],
            )
        &&& forall|j: int|
            0 <= j < self.material_ids.len() ==> self.shader_ids.contains(
                #[trigger] self.material_shader_ids[j],
            )
    }
}

/// The empty queue is consistent, and pushing a node keeps a queue
/// consistent.
pub proof fn lemma_push_keeps_consistent<S, M, X>(q: QueueModel<S, M, X>, node: QueueNode<S, M, X>)
    requires
        q.is_consistent(),
        q.shader_ids.len() < usize::MAX,
        q.material_ids.len() < usize::MAX,
        q.meshes.len() < usize::MAX,
    ensures
        QueueModel::<S, M, X>::empty().is_consistent(),
        q.pushed(node).is_consistent(),
{
    let p = q.pushed(node);
    assert forall|a: int, b: int|
        0 <= a < p.shader_ids.len() && 0 <= b < p.shader_ids.len() && a != b implies p.shader_ids[a]
        != p.shader_ids[b] by {
        if a == q.shader_ids.len() || b == q.shader_ids.len() {
            assert(!q.shader_ids.contains(node.shader_id));
        }
    }
    assert forall|a: int, b: int|
        0 <= a < p.material_ids.len() && 0 <= b < p.material_ids.len() && a != b implies p.material_ids[a]
        != p.material_ids[b] by {
        if a == q.material_ids.len() || b == q.material_ids.len() {
            assert(!q.material_ids.contains(node.material_id));
        }
    }
    assert forall|i: int| 0 <= i < p.meshes.len() implies p.material_ids.contains(
        #[trigger] p.mesh_material_ids[i],
    ) by {
        if i < q.meshes.len() {
            let k = choose|k: int| 0 <= k < q.material_ids.len() && q.material_ids[k] == q.mesh_material_ids[i];
            assert(p.material_ids[k] == q.material_ids[k]);
        } else if q.material_ids.contains(node.material_id) {
        } else {
            assert(p.material_ids[q.material_ids.len() as int] == node.material_id);
        }
    }
    assert forall|j: int| 0 <= j < p.material_ids.len() implies p.shader_ids.contains(
        #[trigger] p.material_shader_ids[j],
    ) by {
        if j < q.material_ids.len() {
            let k = choose|k: int| 0 <= k < q.shader_ids.len() && q.shader_ids[k] == q.material_shader_ids[j];
            assert(p.shader_ids[k] == q.shader_ids[k]);
        } else if q.shader_ids.contains(node.shader_id) {
        } else {
            assert(p.shader_ids[q.shader_ids.len() as int] == node.shader_id);
        }
    }
}

/// What pushing a node does to a consistent queue. The node's shader and
/// material are queued afterwards; what was queued stays in place; a
/// shader or material is added (at the end) only when its id was not
/// queued, and an added material is recorded under the node's shader. The
/// node's mesh is appended with the node's material id.
pub proof fn lemma_push_node_law<S, M, X>(q: QueueModel<S, M, X>, n: QueueNode<S, M, X>)
    requires
        q.is_consistent(),
    ensures
        ({
            let p = q.pushed(n);
            &&& p.shader_ids.contains(n.shader_id)
            &&& p.material_ids.contains(n.material_id)
            &&& p.shaders.len() == p.shader_ids.len()
            &&& p.materials.len() == p.material_ids.len()
            &&& p.material_shader_ids.len() == p.material_ids.len()
            &&& q.shader_ids.len() <= p.shader_ids.len() <= q.shader_ids.len() + 1
            &&& q.material_ids.len() <= p.material_ids.len() <= q.material_ids.len() + 1
            &&& (q.shader_ids.contains(n.shader_id) ==> p.shader_ids.len() == q.shader_ids.len())
            &&& (q.material_ids.contains(n.material_id) ==> p.material_ids.len()
                == q.material_ids.len())
            &&& forall|i: int|
                0 <= i < q.shader_ids.len() ==> p.shader_ids[i] == q.shader_ids[i] && p.shaders[i]
                    == q.shaders[i]
            &&& forall|i: int|
                q.shader_ids.len() <= i < p.shader_ids.len() ==> p.shader_ids[i] == n.shader_id
                    && p.shaders[i] == n.shader
            &&& forall|i: int|
                0 <= i < q.material_ids.len() ==> p.material_ids[i] == q.material_ids[i]
                    && p.material_shader_ids[i] == q.material_shader_ids[i] && p.materials[i]
                    == q.materials[i]
            &&& forall|i: int|
                q.material_ids.len() <= i < p.material_ids.len() ==> p.material_ids[i]
                    == n.material_id && p.material_shader_ids[i] == n.shader_id && p.materials[i]
                    == n.material
            &&& p.meshes.len() == q.meshes.len() + 1
            &&& p.meshes[q.meshes.len() as int] == n.mesh
            &&& p.mesh_material_ids.len() == q.mesh_material_ids.len() + 1
            &&& p.mesh_material_ids[q.mesh_material_ids.len() as int] == n.material_id
            &&& forall|i: int|
                0 <= i < q.meshes.len() ==> p.meshes[i] == q.meshes[i] && p.mesh_material_ids[i]
                    == q.mesh_material_ids[i]
        }),
{
    let p = q.pushed(n);
    if q.shader_ids.contains(n.shader_id) {
    } else {
        assert(p.shader_ids[q.shader_ids.len() as int] == n.shader_id);
    }
    if q.material_ids.contains(n.material_id) {
    } else {
        assert(p.material_ids[q.material_ids.len() as int] == n.material_id);
    }
}

/// Every queued mesh is drawn exactly once in a draw order of a consistent
/// queue.
pub proof fn lemma_each_mesh_drawn_once<S, M, X>(
    q: QueueModel<S, M, X>,
    plan: Seq<(usize, usize, usize)>,
)
    requires
        q.is_consistent(),
        q.is_draw_order(plan),
    ensures
        forall|i: int| 0 <= i < q.meshes.len() ==> #[trigger] mesh_is_drawn(plan, i),
        forall|a: int, b: int|
            0 <= a < plan.len() && 0 <= b < plan.len() && #[trigger] plan[a].2 == #[trigger] plan[b].2
                ==> a == b,
{
    assert forall|i: int| 0 <= i < q.meshes.len() implies #[trigger] mesh_is_drawn(plan, i) by {
        let m = choose|m: int| 0 <= m < q.material_ids.len() && q.material_ids[m] == q.mesh_material_ids[i];
        let s = choose|s: int| 0 <= s < q.shader_ids.len() && q.shader_ids[s] == q.material_shader_ids[m];
        assert(q.is_draw_step(s, m, i));
        let k = choose|k: int| 0 <= k < plan.len() && plan[k] == (s as usize, m as usize, i as usize);
        assert(plan[k].2 == i);
    }
    assert forall|a: int, b: int|
        0 <= a < plan.len() && 0 <= b < plan.len() && #[trigger] plan[a].2 == #[trigger] plan[b].2
        implies a == b by {
        assert(q.is_draw_step(plan[a].0 as int, plan[a].1 as int, plan[a].2 as int));
        assert(q.is_draw_step(plan[b].0 as int, plan[b].1 as int, plan[b].2 as int));
        assert(plan[a].1 == plan[b].1);
        assert(plan[a].0 == plan[b].0);
        if a < b {
            assert(step_before(plan[a], plan[b]));
        } else if b < a {
            assert(step_before(plan[b], plan[a]));
        }
    }
}

/// The first `k` steps of two draw orders of one queue agree.
proof fn lemma_draw_orders_agree_upto<S, M, X>(
    q: QueueModel<S, M, X>,
    p1: Seq<(usize, usize, usize)>,
    p2: Seq<(usize, usize, usize)>,
    k: int,
)
    requires
        q.is_draw_order(p1),
        q.is_draw_order(p2),
        0 <= k <= p1.len(),
        k <= p2.len(),
    ensures
        forall|i: int| 0 <= i < k ==> p1[i] == p2[i],
    decreases k,
{
    if k > 0 {
        let n = k - 1;
        lemma_draw_orders_agree_upto(q, p1, p2, n);
        let x = p1[n];
        let y = p2[n];
        assert(q.is_draw_step(x.0 as int, x.1 as int, x.2 as int));
        assert(q.is_draw_step(y.0 as int, y.1 as int, y.2 as int));
        assert(p2.contains(x));
        assert(p1.contains(y));
        let j = choose|j: int| 0 <= j < p2.len() && p2[j] == x;
        let i = choose|i: int| 0 <= i < p1.len() && p1[i] == y;
        if j < n {
            assert(p1[j] == p2[j]);
            assert(step_before(p1[j], p1[n]));
        }
        if i < n {
            assert(p1[i] == p2[i]);
            assert(step_before(p2[i], p2[n]));
        }
        if j > n && i > n {
            assert(step_before(p2[n], p2[j]));
            assert(step_before(p1[n], p1[i]));
        }
    }
}

/// A queue has one draw order: two sequences that are both draw orders of
/// the same queue are equal.
pub proof fn lemma_draw_order_unique<S, M, X>(
    q: QueueModel<S, M, X>,
    p1: Seq<(usize, usize, usize)>,
    p2: Seq<(usize, usize, usize)>,
)
    requires
        q.is_draw_order(p1),
        q.is_draw_order(p2),
    ensures
        p1 == p2,
{
    let k = if p1.len() <= p2.len() { p1.len() as int } else { p2.len() as int };
    lemma_draw_orders_agree_upto(q, p1, p2, k);
    if p1.len() > p2.len() {
        let x = p1[k];
        assert(q.is_draw_step(x.0 as int, x.1 as int, x.2 as int));
        assert(p2.contains(x));
        let j = choose|j: int| 0 <= j < p2.len() && p2[j] == x;
        assert(p1[j] == p2[j]);
        assert(step_before(p1[j], p1[k]));
    }
    if p2.len() > p1.len() {
        let y = p2[k];
        assert(q.is_draw_step(y.0 as int, y.1 as int, y.2 as int));
        assert(p1.contains(y));
        let i = choose|i: int| 0 <= i < p1.len() && p1[i] == y;
        assert(p1[i] == p2[i]);
        assert(step_before(p2[i], p2[k]));
    }
    assert(p1 =~= p2);
}

/// Some step of `plan` draws mesh `i`.
pub open spec fn mesh_is_drawn(plan: Seq<(usize, usize, usize)>, i: int) -> bool {
    exists|k: int| 0 <= k < plan.len() && #[trigger] plan[k].2 == i
}

/// Lexicographic order on (shader, material, mesh) triples.
pub open spec fn step_before(x: (usize, usize, usize), y: (usize, usize, usize)) -> bool {
    ||| x.0 < y.0
    ||| (x.0 == y.0 && x.1 < y.1)
    ||| (x.0 == y.0 && x.1 == y.1 && x.2 < y.2)
}

pub struct RenderQueue<S, M, X> {
    shader_dic: HashMap<u128, usize>,
    material_dic: HashMap<u128, usize>,
    mesh_dic: HashMap<usize, u128>,
    shader_ids: Vec<u128>,
    shaders: Vec<S>,
    material_ids: Vec<u128>,
    material_shader_ids: Vec<u128>,
    meterials: Vec<M>,
    meshes: Vec<X>,
}

impl<S, M, X> View for RenderQueue<S, M, X> {
    type V = QueueModel<S, M, X>;

    closed spec fn view(&self) -> QueueModel<S, M, X> {
        QueueModel {
            shader_ids: self.shader_ids@,
            shaders: self.shaders@,
            material_ids: self.material_ids@,
            material_shader_ids: self.material_shader_ids@,
            materials: self.meterials@,
            mesh_material_ids: Seq::new(self.meshes@.len(), |i: int| self.mesh_dic@[i as usize]),
            meshes: self.meshes@,
        }
    }
}

impl<S, M, X> RenderQueue<S, M, X> {
    /// The dictionaries index the lists, and every queued mesh's material
    /// and every queued material's shader is queued too.
    pub closed spec fn wf(&self) -> bool {
        &&& self.shaders@.len() == self.shader_ids@.len()
        &&& self.material_shader_ids@.len() == self.material_ids@.len()
        &&& self.meterials@.len() == self.material_ids@.len()
        &&& forall|i: int|
            0 <= i < self.shader_ids@.len() ==> #[trigger] self.shader_dic@.contains_key(
                self.shader_ids@[i],
            ) && self.shader_dic@[self.shader_ids@[i]] == i
        &&& forall|k: u128| #[trigger]
            self.shader_dic@.contains_key(k) ==> self.shader_dic@[k] < self.shader_ids@.len()
                && self.shader_ids@[self.shader_dic@[k] as int] == k
        &&& forall|i: int|
            0 <= i < self.material_ids@.len() ==> #[trigger] self.material_dic@.contains_key(
                self.material_ids@[i],
            ) && self.material_dic@[self.material_ids@[i]] == i
        &&& forall|k: u128| #[trigger]
            self.material_dic@.contains_key(k) ==> self.material_dic@[k] < self.material_ids@.len()
                && self.material_ids@[self.material_dic@[k] as int] == k
        &&& forall|i: usize| #[trigger]
            self.mesh_dic@.contains_key(i) <==> i < self.meshes@.len()
        &&& forall|i: usize|
            i < self.meshes@.len() ==> self.material_dic@.contains_key(
                #[trigger] self.mesh_dic@[i],
            )
        &&& forall|j: int|
            0 <= j < self.material_ids@.len() ==> self.shader_dic@.contains_key(
                #[trigger] self.material_shader_ids@[j],
            )
    }

    /// A well-formed queue's content is consistent.
    pub proof fn lemma_view_consistent(&self)
        requires
            self.wf(),
        ensures
            self@.is_consistent(),
    {
        let q = self@;
        assert(self.shader_ids@.len() == self.shader_ids.len());
        assert(self.material_ids@.len() == self.material_ids.len());
        assert(self.meshes@.len() == self.meshes.len());
        assert forall|a: int, b: int|
            0 <= a < q.shader_ids.len() && 0 <= b < q.shader_ids.len() && a != b implies q.shader_ids[a]
            != q.shader_ids[b] by {
            assert(self.shader_dic@.contains_key(self.shader_ids@[a]));
            assert(self.shader_dic@.contains_key(self.shader_ids@[b]));
        }
        assert forall|a: int, b: int|
            0 <= a < q.material_ids.len() && 0 <= b < q.material_ids.len() && a != b implies q.material_ids[a]
            != q.material_ids[b] by {
            assert(self.material_dic@.contains_key(self.material_ids@[a]));
            assert(self.material_dic@.contains_key(self.material_ids@[b]));
        }
        assert forall|i: int| 0 <= i < q.meshes.len() implies q.material_ids.contains(
            #[trigger] q.mesh_material_ids[i],
        ) by {
            let k = self.mesh_dic@[i as usize];
            assert(self.material_dic@.contains_key(k));
            assert(q.material_ids[self.material_dic@[k] as int] == k);
        }
        assert forall|j: int| 0 <= j < q.material_ids.len() implies q.shader_ids.contains(
            #[trigger] q.material_shader_ids[j],
        ) by {
            let k = self.material_shader_ids@[j];
            assert(self.shader_dic@.contains_key(k));
            assert(q.shader_ids[self.shader_dic@[k] as int] == k);
        }
    }

    pub fn new() -> (r: Self)
        ensures
            r.wf(),
            r@ == QueueModel::<S, M, X>::empty(),
    {
        let r = RenderQueue {
            shader_dic: HashMap::new(),
            material_dic: HashMap::new(),
            mesh_dic: HashMap::new(),
            shader_ids: Vec::new(),
            shaders: Vec::new(),
            material_ids: Vec::new(),
            material_shader_ids: Vec::new(),
            meterials: Vec::new(),
            meshes: Vec::new(),
        };
        assert(r@.mesh_material_ids =~= Seq::<u128>::empty());
        r
    }

    pub fn clear(&mut self)
        ensures
            final(self).wf(),
            final(self)@ == QueueModel::<S, M, X>::empty(),
    {
        self.mesh_dic.clear();
        self.material_dic.clear();
        self.shader_dic.clear();
        self.shader_ids.clear();
        self.shaders.clear();
        self.material_ids.clear();
        self.material_shader_ids.clear();
        self.meterials.clear();
        self.meshes.clear();
        assert(self@.mesh_material_ids =~= Seq::<u128>::empty());
    }

    /// Queues one node; see `QueueModel::pushed`.
    pub fn push_node(&mut self, node: QueueNode<S, M, X>)
        requires
            old(self).wf(),
        ensures
            final(self).wf(),
            final(self)@ == old(self)@.pushed(node),
    {
        let ghost old_model = self@;
        let ghost node_copy = node;
        let QueueNode { shader_id, shader, material_id, material, queue_type: _, mesh } = node;
        if !self.shader_dic.contains_key(&shader_id) {
            proof {
                if self.shader_ids@.contains(shader_id) {
                    let i = choose|i: int| 0 <= i < self.shader_ids@.len() && self.shader_ids@[i] == shader_id;
                    assert(self.shader_dic@.contains_key(self.shader_ids@[i]));
                }
            }
            self.shaders.push(shader);
            self.shader_ids.push(shader_id);
            let idx = self.shaders.len() - 1;
            self.shader_dic.insert(shader_id, idx);
        } else {
            proof {
                let i = self.shader_dic@[shader_id] as int;
                assert(self.shader_ids@[i] == shader_id);
            }
        }
        if !self.material_dic.contains_key(&material_id) {
            proof {
                if self.material_ids@.contains(material_id) {
                    let i = choose|i: int| 0 <= i < self.material_ids@.len() && self.material_ids@[i] == material_id;
                    assert(self.material_dic@.contains_key(self.material_ids@[i]));
                }
            }
            self.meterials.push(material);
            self.material_ids.push(material_id);
            self.material_shader_ids.push(shader_id);
            let idx = self.meterials.len() - 1;
            self.material_dic.insert(material_id, idx);
        } else {
            proof {
                let i = self.material_dic@[material_id] as int;
                assert(self.material_ids@[i] == material_id);
            }
        }
        self.meshes.push(mesh);
        let mesh_idx = self.meshes.len() - 1;
        self.mesh_dic.insert(mesh_idx, material_id);
        assert(self@.mesh_material_ids =~= old_model.mesh_material_ids.push(material_id));
        assert(self@ == old_model.pushed(node_copy));
    }

    /// The queued shaders, in the order first seen.
    pub fn shaders(&self) -> (r: &Vec<S>)
        ensures
            r@ == self@.shaders,
    {
        &self.shaders
    }

    /// The queued materials, in the order first seen.
    pub fn meterials(&self) -> (r: &Vec<M>)
        ensures
            r@ == self@.materials,
    {
        &self.meterials
    }

    /// The queued meshes, in the order pushed.
    pub fn meshes(&self) -> (r: &Vec<X>)
        ensures
            r@ == self@.meshes,
    {
        &self.meshes
    }

    /// The id of the material of queued mesh `idx`.
    pub fn get_mesh_material_by_idx(&self, idx: usize) -> (r: u128)
        requires
            self.wf(),
            idx < self@.meshes.len(),
        ensures
            r == self@.mesh_material_ids[idx as int],
    {
        *self.mesh_dic.get(&idx).unwrap()
    }

    /// The draw calls of one pass over the queue, as (shader, material,
    /// mesh) positions: for each queued shader, each of its materials, and
    /// for each such material the meshes that use it.
    pub fn draw_order(&self) -> (plan: Vec<(usize, usize, usize)>)
        requires
            self.wf(),
        ensures
            self@.is_draw_order(plan@),
    {
        let ghost q = self@;
        let mut plan: Vec<(usize, usize, usize)> = Vec::new();
        let n_shaders = self.shader_ids.len();
        let n_materials = self.material_ids.len();
        let n_meshes = self.meshes.len();
        let mut s: usize = 0;
        while s < n_shaders
            invariant
                self.wf(),
                q == self@,
                n_shaders == q.shader_ids.len(),
                n_materials == q.material_ids.len(),
                n_meshes == q.meshes.len(),
                s <= n_shaders,
                plan_sound(q, plan@, s as int, 0, 0),
                plan_complete(q, plan@, s as int, 0, 0),
            decreases n_shaders - s,
        {
            let mut m: usize = 0;
            while m < n_materials
                invariant
                    self.wf(),
                    q == self@,
                    n_shaders == q.shader_ids.len(),
                    n_materials == q.material_ids.len(),
                    n_meshes == q.meshes.len(),
                    s < n_shaders,
                    m <= n_materials,
                    plan_sound(q, plan@, s as int, m as int, 0),
                    plan_complete(q, plan@, s as int, m as int, 0),
                decreases n_materials - m,
            {
                if self.material_shader_ids[m] == self.shader_ids[s] {
                    let mut i: usize = 0;
                    while i < n_meshes
                        invariant
                            self.wf(),
                            q == self@,
                            n_shaders == q.shader_ids.len(),
                            n_materials == q.material_ids.len(),
                            n_meshes == q.meshes.len(),
                            s < n_shaders,
                            m < n_materials,
                            i <= n_meshes,
                            q.material_shader_ids[m as int] == q.shader_ids[s as int],
                            plan_sound(q, plan@, s as int, m as int, i as int),
                            plan_complete(q, plan@, s as int, m as int, i as int),
                        decreases n_meshes - i,
                    {
                        let owned_mat_id = self.get_mesh_material_by_idx(i);
                        if owned_mat_id == self.material_ids[m] {
                            let ghost before = plan@;
                            plan.push((s, m, i));
                            proof {
                                lemma_plan_step_taken(q, before, s, m, i);
                            }
                        } else {
                            proof {
                                lemma_plan_step_skipped(q, plan@, s as int, m as int, i as int);
                            }
                        }
                        i = i + 1;
                    }
                    proof {
                        lemma_prefix_next_material(q, plan@, s as int, m as int);
                    }
                } else {
                    proof {
                        assert forall|s2: int, m2: int, i2: int|
                            #[trigger] q.is_draw_step(s2, m2, i2) && in_prefix(
                                s2,
                                m2,
                                i2,
                                s as int,
                                m + 1,
                                0,
                            ) implies plan@.contains((s2 as usize, m2 as usize, i2 as usize)) by {
                            assert(in_prefix(s2, m2, i2, s as int, m as int, 0));
                        }
                    }
                }
                m = m + 1;
            }
            proof {
                lemma_prefix_next_shader(q, plan@, s as int);
            }
            s = s + 1;
        }
        proof {
            assert forall|s2: int, m2: int, i2: int| #[trigger]
                q.is_draw_step(s2, m2, i2) implies plan@.contains(
                (s2 as usize, m2 as usize, i2 as usize),
            ) by {
                assert(in_prefix(s2, m2, i2, s as int, 0, 0));
            }
        }
        plan
    }
}

/// (s2, m2, i2) comes before position (s, m, i) of the nested walk.
spec fn in_prefix(s2: int, m2: int, i2: int, s: int, m: int, i: int) -> bool {
    ||| s2 < s
    ||| (s2 == s && m2 < m)
    ||| (s2 == s && m2 == m && i2 < i)
}

/// Every planned step is a draw step before (s, m, i), in increasing order.
spec fn plan_sound<S, M, X>(
    q: QueueModel<S, M, X>,
    plan: Seq<(usize, usize, usize)>,
    s: int,
    m: int,
    i: int,
) -> bool {
    &&& forall|k: int|
        0 <= k < plan.len() ==> #[trigger] q.is_draw_step(
            plan[k].0 as int,
            plan[k].1 as int,
            plan[k].2 as int,
        ) && in_prefix(plan[k].0 as int, plan[k].1 as int, plan[k].2 as int, s, m, i)
    &&& forall|a: int, b: int|
        0 <= a < b < plan.len() ==> step_before(#[trigger] plan[a], #[trigger] plan[b])
}

/// Every draw step before (s, m, i) is planned.
spec fn plan_complete<S, M, X>(
    q: QueueModel<S, M, X>,
    plan: Seq<(usize, usize, usize)>,
    s: int,
    m: int,
    i: int,
) -> bool {
    forall|s2: int, m2: int, i2: int|
        #[trigger] q.is_draw_step(s2, m2, i2) && in_prefix(s2, m2, i2, s, m, i) ==> plan.contains(
            (s2 as usize, m2 as usize, i2 as usize),
        )
}

#[verifier::spinoff_prover]
proof fn lemma_plan_step_taken<S, M, X>(
    q: QueueModel<S, M, X>,
    before: Seq<(usize, usize, usize)>,
    s: usize,
    m: usize,
    i: usize,
)
    requires
        plan_sound(q, before, s as int, m as int, i as int),
        plan_complete(q, before, s as int, m as int, i as int),
        q.is_draw_step(s as int, m as int, i as int),
    ensures
        plan_sound(q, before.push((s, m, i)), s as int, m as int, i + 1),
        plan_complete(q, before.push((s, m, i)), s as int, m as int, i + 1),
{
    let plan = before.push((s, m, i));
    assert forall|k: int| 0 <= k < plan.len() implies #[trigger] q.is_draw_step(
        plan[k].0 as int,
        plan[k].1 as int,
        plan[k].2 as int,
    ) && in_prefix(plan[k].0 as int, plan[k].1 as int, plan[k].2 as int, s as int, m as int, i + 1) by {
        if k < before.len() {
            assert(plan[k] == before[k]);
            assert(q.is_draw_step(before[k].0 as int, before[k].1 as int, before[k].2 as int));
        } else {
            assert(plan[k] == (s, m, i));
        }
    }
    assert forall|a: int, b: int| 0 <= a < b < plan.len() implies step_before(
        #[trigger] plan[a],
        #[trigger] plan[b],
    ) by {
        assert(plan[a] == before[a]);
        assert(q.is_draw_step(before[a].0 as int, before[a].1 as int, before[a].2 as int));
        if b < before.len() {
            assert(plan[b] == before[b]);
        }
    }
    assert forall|s2: int, m2: int, i2: int|
        #[trigger] q.is_draw_step(s2, m2, i2) && in_prefix(s2, m2, i2, s as int, m as int, i + 1)
        implies plan.contains((s2 as usize, m2 as usize, i2 as usize)) by {
        if in_prefix(s2, m2, i2, s as int, m as int, i as int) {
            let k = choose|k: int|
                0 <= k < before.len() && before[k] == (s2 as usize, m2 as usize, i2 as usize);
            assert(plan[k] == before[k]);
        } else {
            assert(plan[before.len() as int] == (s2 as usize, m2 as usize, i2 as usize));
        }
    }
}

proof fn lemma_plan_step_skipped<S, M, X>(
    q: QueueModel<S, M, X>,
    plan: Seq<(usize, usize, usize)>,
    s: int,
    m: int,
    i: int,
)
    requires
        plan_sound(q, plan, s, m, i),
        plan_complete(q, plan, s, m, i),
        !q.is_draw_step(s, m, i),
    ensures
        plan_sound(q, plan, s, m, i + 1),
        plan_complete(q, plan, s, m, i + 1),
{
    assert forall|k: int| 0 <= k < plan.len() implies #[trigger] q.is_draw_step(
        plan[k].0 as int,
        plan[k].1 as int,
        plan[k].2 as int,
    ) && in_prefix(plan[k].0 as int, plan[k].1 as int, plan[k].2 as int, s, m, i + 1) by {
        assert(q.is_draw_step(plan[k].0 as int, plan[k].1 as int, plan[k].2 as int));
        assert(in_prefix(plan[k].0 as int, plan[k].1 as int, plan[k].2 as int, s, m, i));
    }
    assert forall|s2: int, m2: int, i2: int|
        #[trigger] q.is_draw_step(s2, m2, i2) && in_prefix(s2, m2, i2, s, m, i + 1) implies plan.contains(
        (s2 as usize, m2 as usize, i2 as usize),
    ) by {
        assert(in_prefix(s2, m2, i2, s, m, i));
    }
}

proof fn lemma_prefix_next_material<S, M, X>(
    q: QueueModel<S, M, X>,
    plan: Seq<(usize, usize, usize)>,
    s: int,
    m: int,
)
    requires
        plan_sound(q, plan, s, m, q.meshes.len() as int),
        plan_complete(q, plan, s, m, q.meshes.len() as int),
    ensures
        plan_sound(q, plan, s, m + 1, 0),
        plan_complete(q, plan, s, m + 1, 0),
{
    assert forall|s2: int, m2: int, i2: int|
        #[trigger] q.is_draw_step(s2, m2, i2) && in_prefix(s2, m2, i2, s, m + 1, 0) implies plan.contains(
        (s2 as usize, m2 as usize, i2 as usize),
    ) by {
        assert(in_prefix(s2, m2, i2, s, m, q.meshes.len() as int));
    }
}

proof fn lemma_prefix_next_shader<S, M, X>(
    q: QueueModel<S, M, X>,
    plan: Seq<(usize, usize, usize)>,
    s: int,
)
    requires
        plan_sound(q, plan, s, q.material_ids.len() as int, 0),
        plan_complete(q, plan, s, q.material_ids.len() as int, 0),
    ensures
        plan_sound(q, plan, s + 1, 0, 0),
        plan_complete(q, plan, s + 1, 0, 0),
{
    assert forall|s2: int, m2: int, i2: int|
        #[trigger] q.is_draw_step(s2, m2, i2) && in_prefix(s2, m2, i2, s + 1, 0, 0) implies plan.contains(
        (s2 as usize, m2 as usize, i2 as usize),
    ) by {
        assert(in_prefix(s2, m2, i2, s, q.material_ids.len() as int, 0));
    }
}

} // verus!
