//! A material: a shader, its descriptor set and an optional main texture,
//! under a random id.
use vstd::prelude::*;
use crate::shader_store::new_uuid_u128;

verus! {

pub struct Material<S, D, T> {
    pub id: u128,
    pub desc_set: D,
    shader: S,
    main_texture: Option<T>,
}

impl<S, D, T> Material<S, D, T> {
    pub closed spec fn shader(&self) -> S {
        self.shader
    }

    pub closed spec fn main_texture(&self) -> Option<T> {
        self.main_texture
    }

    pub closed spec fn material_id(&self) -> u128 {
        self.id
    }

    pub closed spec fn descriptor_set(&self) -> D {
        self.desc_set
    }

    /// A material drawn with `shader` through `desc_set`, without a texture
    /// yet; its id is a fresh version-4 UUID.
    pub fn new(shader: S, desc_set: D) -> (r: Self)
        ensures
            r.shader() == shader,
            r.descriptor_set() == desc_set,
            r.main_texture() is None,
            (r.material_id() >> 76u128) & 0xfu128 == 4,
            (r.material_id() >> 62u128) & 3u128 == 2,
    {
        Material { id: new_uuid_u128(), shader, desc_set, main_texture: None }
    }

    pub fn get_shader(&self) -> (r: &S)
        ensures
            *r == self.shader(),
    {
        &self.shader
    }

    /// Makes `tex` the main texture; the descriptor set is then rewritten
    /// to sample it.
    pub fn set_main_texture(&mut self, tex: T)
        ensures
            final(self).main_texture() == Some(tex),
            final(self).shader() == old(self).shader(),
            final(self).material_id() == old(self).material_id(),
            final(self).descriptor_set() == old(self).descriptor_set(),
    {
        self.main_texture = Some(tex);
    }

    pub fn get_desc_set(&self) -> (r: &D)
        ensures
            *r == self.descriptor_set(),
    {
        &self.desc_set
    }

    pub fn get_main_texture(&self) -> (r: Option<&T>)
        ensures
            match self.main_texture() {
                Some(t) => r == Some(&t),
                None => r is None,
            },
    {
        self.main_texture.as_ref()
    }
}

} // verus!
