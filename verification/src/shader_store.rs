//! Shaders by name.
use std::rc::Rc;
use vstd::prelude::*;
use crate::render_queue::QueueType;
use crate::shader::Shader;

verus! {

/// `uuid`'s `Uuid::new_v4()` turned into a number with `Uuid::as_u128`.
/// The bytes are random; the contract states only what every outcome has:
/// the version nibble 4 and the RFC 4122 variant bits `10`. `new_v4`
/// panics when the system has no randomness to give, which no argument
/// can rule out.
#[verifier::external_body]
pub(crate) fn new_uuid_u128() -> (r: u128)
    ensures
        (r >> 76u128) & 0xfu128 == 4,
        (r >> 62u128) & 3u128 == 2,
{
    uuid::Uuid::new_v4().as_u128()
}

/// A shader stored under a name is what a lookup of that name gives back,
/// and the other names keep their shaders.
pub proof fn lemma_get_after_insert<P>(
    before: Map<Seq<char>, Shader<P>>,
    name: Seq<char>,
    shader: Shader<P>,
    other: Seq<char>,
)
    ensures
        before.insert(name, shader).contains_key(name),
        before.insert(name, shader)[name] == shader,
        other != name ==> (before.insert(name, shader).contains_key(other) == before.contains_key(
            other,
        ) && (before.contains_key(other) ==> before.insert(name, shader)[other] == before[other])),
{
}

/// Shaders stored under their names, one per name.
pub struct ShaderStore<P> {
    shaders: Vec<Rc<Shader<P>>>,
}

/// Position `i` of `shaders` holds the shader named `name`.
pub open spec fn named_at<P>(shaders: Seq<Rc<Shader<P>>>, name: Seq<char>, i: int) -> bool {
    0 <= i < shaders.len() && shaders[i].name@ == name
}

impl<P> View for ShaderStore<P> {
    type V = Map<Seq<char>, Shader<P>>;

    closed spec fn view(&self) -> Map<Seq<char>, Shader<P>> {
        Map::new(
            |name: Seq<char>| exists|i: int| named_at(self.shaders@, name, i),
            |name: Seq<char>| *self.shaders@[choose|i: int| named_at(self.shaders@, name, i)],
        )
    }
}

impl<P> ShaderStore<P> {
    /// No two stored shaders share a name.
    pub closed spec fn wf(&self) -> bool {
        forall|i: int, j: int|
            0 <= i < self.shaders@.len() && 0 <= j < self.shaders@.len() && i != j
                ==> #[trigger] self.shaders@[i].name@ != #[trigger] self.shaders@[j].name@
    }

    pub fn new() -> (r: Self)
        ensures
            r.wf(),
            r@ == Map::<Seq<char>, Shader<P>>::empty(),
    {
        let r = ShaderStore { shaders: Vec::new() };
        assert(r@ =~= Map::<Seq<char>, Shader<P>>::empty());
        r
    }

    /// The position of the shader named `name`, if one is stored.
    fn position_of(&self, name: &String) -> (r: Option<usize>)
        requires
            self.wf(),
        ensures
            match r {
                Some(i) => named_at(self.shaders@, name@, i as int),
                None => forall|i: int| !#[trigger] named_at(self.shaders@, name@, i),
            },
    {
        let mut i: usize = 0;
        while i < self.shaders.len()
            invariant
                i <= self.shaders@.len(),
                forall|j: int| 0 <= j < i ==> !#[trigger] named_at(self.shaders@, name@, j),
            decreases self.shaders.len() - i,
        {
            if self.shaders[i].name == *name {
                return Some(i);
            }
            i = i + 1;
        }
        None
    }

    /// Stores `shader` under its name, in place of any shader of that name.
    fn insert_shader(&mut self, shader: Shader<P>)
        requires
            old(self).wf(),
        ensures
            final(self).wf(),
            final(self)@ == old(self)@.insert(shader.name@, shader),
    {
        let ghost old_shaders = self.shaders@;
        let ghost key = shader.name@;
        let ghost s = shader;
        let pos = self.position_of(&shader.name);
        let shader = Rc::new(shader);
        match pos {
            Some(i) => {
                self.shaders.set(i, shader);
                proof {
                    assert forall|a: int, b: int|
                        0 <= a < self.shaders@.len() && 0 <= b < self.shaders@.len() && a != b
                        implies #[trigger] self.shaders@[a].name@ != #[trigger] self.shaders@[b].name@ by {
                        assert(old_shaders[a].name@ != old_shaders[b].name@);
                    }
                    assert forall|k: Seq<char>| #[trigger] self@.contains_key(k) <==> old(self)@.insert(key, s).contains_key(k) by {
                        if k == key {
                            assert(named_at(self.shaders@, k, i as int));
                        } else if exists|j: int| named_at(old_shaders, k, j) {
                            let j = choose|j: int| named_at(old_shaders, k, j);
                            assert(j != i);
                            assert(named_at(self.shaders@, k, j));
                        } else {
                            if exists|j: int| named_at(self.shaders@, k, j) {
                                let j = choose|j: int| named_at(self.shaders@, k, j);
                                assert(named_at(old_shaders, k, j));
                            }
                        }
                    }
                    assert forall|k: Seq<char>| #[trigger] self@.contains_key(k) implies self@[k] == old(self)@.insert(key, s)[k] by {
                        let j = choose|j: int| named_at(self.shaders@, k, j);
                        if k == key {
                            assert(j == i);
                        } else {
                            assert(named_at(old_shaders, k, j));
                            let j2 = choose|j2: int| named_at(old_shaders, k, j2);
                            assert(j2 == j);
                        }
                    }
                    assert(self@ =~= old(self)@.insert(key, s));
                }
            },
            None => {
                self.shaders.push(shader);
                proof {
                    let n = old_shaders.len() as int;
                    assert forall|a: int, b: int|
                        0 <= a < self.shaders@.len() && 0 <= b < self.shaders@.len() && a != b
                        implies #[trigger] self.shaders@[a].name@ != #[trigger] self.shaders@[b].name@ by {
                        if a < n && b < n {
                            assert(old_shaders[a].name@ != old_shaders[b].name@);
                        } else if a < n {
                            assert(!named_at(old_shaders, key, a));
                        } else {
                            assert(!named_at(old_shaders, key, b));
                        }
                    }
                    assert forall|k: Seq<char>| #[trigger] self@.contains_key(k) <==> old(self)@.insert(key, s).contains_key(k) by {
                        if k == key {
                            assert(named_at(self.shaders@, k, n));
                        } else if exists|j: int| named_at(old_shaders, k, j) {
                            let j = choose|j: int| named_at(old_shaders, k, j);
                            assert(named_at(self.shaders@, k, j));
                        } else {
                            if exists|j: int| named_at(self.shaders@, k, j) {
                                let j = choose|j: int| named_at(self.shaders@, k, j);
                                assert(named_at(old_shaders, k, j));
                            }
                        }
                    }
                    assert forall|k: Seq<char>| #[trigger] self@.contains_key(k) implies self@[k] == old(self)@.insert(key, s)[k] by {
                        let j = choose|j: int| named_at(self.shaders@, k, j);
                        if k == key {
                            if j < n {
                                assert(named_at(old_shaders, key, j));
                            }
                            assert(j == n);
                        } else {
                            assert(named_at(old_shaders, k, j));
                            let j2 = choose|j2: int| named_at(old_shaders, k, j2);
                            assert(j2 == j);
                        }
                    }
                    assert(self@ =~= old(self)@.insert(key, s));
                }
            },
        }
    }

    /// The built-in "UI" shader around `pipeline`, with a fresh random id,
    /// drawn from the geometry queue.
    pub fn create_ui_builtin_shader(pipeline: P) -> (r: Shader<P>)
        ensures
            r.name@ == "UI"@,
            r.pipelines@ == seq![pipeline],
            r.queue_type == QueueType::Geometry,
            (r.id >> 76u128) & 0xfu128 == 4,
            (r.id >> 62u128) & 3u128 == 2,
    {
        let mut pipelines: Vec<P> = Vec::new();
        pipelines.push(pipeline);
        Shader {
            id: new_uuid_u128(),
            name: String::from_str("UI"),
            pipelines,
            queue_type: QueueType::Geometry,
        }
    }

    /// Stores the built-in "UI" shader around `pipeline`.
    pub fn init_builtin_shader(&mut self, pipeline: P)
        requires
            old(self).wf(),
        ensures
            final(self).wf(),
            exists|s: Shader<P>|
                #![trigger old(self)@.insert("UI"@, s)]
                final(self)@ == old(self)@.insert("UI"@, s) && s.name@ == "UI"@ && s.pipelines@ == seq![pipeline]
                    && s.queue_type == QueueType::Geometry && (s.id >> 76u128) & 0xfu128 == 4 && (
                s.id >> 62u128) & 3u128 == 2,
    {
        let ui_shader = Self::create_ui_builtin_shader(pipeline);
        let ghost s = ui_shader;
        self.insert_shader(ui_shader);
        assert(final(self)@ == old(self)@.insert("UI"@, s));
    }

    /// Whether a shader is stored under `shader_name`.
    pub fn has_shader(&self, shader_name: &str) -> (r: bool)
        requires
            self.wf(),
        ensures
            r == self@.contains_key(shader_name@),
    {
        let key = String::from_str(shader_name);
        let pos = self.position_of(&key);
        proof {
            if self@.contains_key(shader_name@) {
                let j = choose|j: int| named_at(self.shaders@, shader_name@, j);
                assert(named_at(self.shaders@, key@, j));
            }
        }
        pos.is_some()
    }

    /// The shader stored under `shader_name`.
    pub fn get_shader(&self, shader_name: &str) -> (r: &Rc<Shader<P>>)
        requires
            self.wf(),
            self@.contains_key(shader_name@),
        ensures
            **r == self@[shader_name@],
    {
        let key = String::from_str(shader_name);
        let pos = self.position_of(&key);
        let ghost j = choose|j: int| named_at(self.shaders@, shader_name@, j);
        assert(named_at(self.shaders@, key@, j));
        let i = pos.unwrap();
        assert(j == i);
        &self.shaders[i]
    }

    /// Reserved for building pipeline descriptions by shader name; it does
    /// nothing.
    pub fn create_shader_pipeline_desc(&self, shader_name: String) {
    }
}

} // verus!
