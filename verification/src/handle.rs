//! Shared handles for engine resources: each handle family draws its
//! ids from its own monotone generator.

use vstd::prelude::*;
use std::sync::Arc;

verus! {

/// A monotone id source: hands out 1, 2, 3, ...
pub struct IDGenerator {
    next_id: u64,
}

impl IDGenerator {
    /// A fresh generator; its first id is 1.
    pub fn new() -> (r: IDGenerator)
        ensures
            r.spec_next_id() == 1,
    {
        IDGenerator { next_id: 1 }
    }

    /// The id the next call hands out.
    pub closed spec fn spec_next_id(self) -> u64 {
        self.next_id
    }

    /// Hands out the next id and steps the counter.
    pub fn get_next_id(&mut self) -> (r: u64)
        requires
            old(self).spec_next_id() < u64::MAX,
        ensures
            r == old(self).spec_next_id(),
            final(self).spec_next_id() == old(self).spec_next_id() + 1,
    {
        let id = self.next_id;
        self.next_id = self.next_id + 1;
        id
    }
}

/// A shared handle to a texture resource.
#[derive(Eq, Hash, PartialEq, Clone, Debug)]
pub struct TextureHandle {
    inner: Arc<u64>,
}

impl TextureHandle {
    /// The id this handle carries.
    pub closed spec fn spec_id(self) -> u64 {
        *self.inner
    }

    /// The id this handle carries.
    pub fn id(&self) -> (r: u64)
        ensures
            r == self.spec_id(),
    {
        *self.inner
    }
}

/// A shared handle to a GUI texture resource.
#[derive(Eq, Hash, PartialEq, Clone, Debug)]
pub struct EGUITextureHandle {
    inner: Arc<u64>,
}

impl EGUITextureHandle {
    /// The id this handle carries.
    pub closed spec fn spec_id(self) -> u64 {
        *self.inner
    }

    /// The id this handle carries.
    pub fn id(&self) -> (r: u64)
        ensures
            r == self.spec_id(),
    {
        *self.inner
    }
}

/// A shared handle to a buffer resource.
#[derive(Eq, Hash, PartialEq, Clone, Debug)]
pub struct BufferHandle {
    inner: Arc<u64>,
}

/// Relies on `std::sync::Arc::strong_count`: the number of strong
/// references at some moment of the call; nothing further is promised
/// of a count that other threads may change at any time.
#[verifier::external_body]
fn arc_strong_count(a: &Arc<u64>) -> usize {
    Arc::strong_count(a)
}

impl BufferHandle {
    /// The id this handle carries.
    pub closed spec fn spec_id(self) -> u64 {
        *self.inner
    }

    /// The id this handle carries.
    pub fn id(&self) -> (r: u64)
        ensures
            r == self.spec_id(),
    {
        *self.inner
    }

    /// The number of strong references to this buffer at this moment.
    pub fn strong_cout(&self) -> usize {
        arc_strong_count(&self.inner)
    }

    /// Whether this handle was the only reference at this moment.
    pub fn only_self(&self) -> bool {
        self.strong_cout() <= 1
    }
}

/// A shared handle to a sampler resource.
#[derive(Eq, Hash, PartialEq, Clone, Debug)]
pub struct SamplerHandle {
    inner: Arc<u64>,
}

impl SamplerHandle {
    /// The id this handle carries.
    pub closed spec fn spec_id(self) -> u64 {
        *self.inner
    }

    /// The id this handle carries.
    pub fn id(&self) -> (r: u64)
        ensures
            r == self.spec_id(),
    {
        *self.inner
    }
}

/// A shared handle to a material render pipeline.
#[derive(Eq, Hash, PartialEq, Clone, Debug)]
pub struct MaterialRenderPipelineHandle {
    inner: Arc<u64>,
}

impl MaterialRenderPipelineHandle {
    /// The id this handle carries.
    pub closed spec fn spec_id(self) -> u64 {
        *self.inner
    }

    /// The id this handle carries.
    pub fn id(&self) -> (r: u64)
        ensures
            r == self.spec_id(),
    {
        *self.inner
    }
}

/// Draws fresh handles for every resource family, each family counting
/// on its own.
pub struct HandleManager {
    texture_idgenerator: IDGenerator,
    virtual_texture_idgenerator: IDGenerator,
    buffer_idgenerator: IDGenerator,
    gui_texture_idgenerator: IDGenerator,
    sampler_idgenerator: IDGenerator,
    material_render_pipeline_idgenerator: IDGenerator,
}

impl HandleManager {
    /// The next texture id.
    pub closed spec fn spec_next_texture_id(self) -> u64 {
        self.texture_idgenerator.spec_next_id()
    }

    /// The next virtual texture id.
    pub closed spec fn spec_next_virtual_texture_id(self) -> u64 {
        self.virtual_texture_idgenerator.spec_next_id()
    }

    /// The next buffer id.
    pub closed spec fn spec_next_buffer_id(self) -> u64 {
        self.buffer_idgenerator.spec_next_id()
    }

    /// The next GUI texture id.
    pub closed spec fn spec_next_ui_texture_id(self) -> u64 {
        self.gui_texture_idgenerator.spec_next_id()
    }

    /// The next sampler id.
    pub closed spec fn spec_next_sampler_id(self) -> u64 {
        self.sampler_idgenerator.spec_next_id()
    }

    /// The next material render pipeline id.
    pub closed spec fn spec_next_material_render_pipeline_id(self) -> u64 {
        self.material_render_pipeline_idgenerator.spec_next_id()
    }

    /// All counters below the overflow bound.
    pub open spec fn spec_usable(self) -> bool {
        &&& self.spec_next_texture_id() < u64::MAX
        &&& self.spec_next_virtual_texture_id() < u64::MAX
        &&& self.spec_next_buffer_id() < u64::MAX
        &&& self.spec_next_ui_texture_id() < u64::MAX
        &&& self.spec_next_sampler_id() < u64::MAX
        &&& self.spec_next_material_render_pipeline_id() < u64::MAX
    }

    /// A fresh manager: every family starts at id 1.
    pub fn new() -> (r: HandleManager)
        ensures
            r.spec_next_texture_id() == 1,
            r.spec_next_virtual_texture_id() == 1,
            r.spec_next_buffer_id() == 1,
            r.spec_next_ui_texture_id() == 1,
            r.spec_next_sampler_id() == 1,
            r.spec_next_material_render_pipeline_id() == 1,
    {
        HandleManager {
            texture_idgenerator: IDGenerator::new(),
            virtual_texture_idgenerator: IDGenerator::new(),
            buffer_idgenerator: IDGenerator::new(),
            gui_texture_idgenerator: IDGenerator::new(),
            sampler_idgenerator: IDGenerator::new(),
            material_render_pipeline_idgenerator: IDGenerator::new(),
        }
    }

    /// The next material render pipeline handle.
    pub fn next_material_render_pipeline(&mut self) -> (r: MaterialRenderPipelineHandle)
        requires
            old(self).spec_usable(),
        ensures
            r.spec_id() == old(self).spec_next_material_render_pipeline_id(),
            final(self).spec_next_material_render_pipeline_id() == old(
                self,
            ).spec_next_material_render_pipeline_id() + 1,
            final(self).spec_next_texture_id() == old(self).spec_next_texture_id(),
            final(self).spec_next_virtual_texture_id() == old(self).spec_next_virtual_texture_id(),
            final(self).spec_next_buffer_id() == old(self).spec_next_buffer_id(),
            final(self).spec_next_ui_texture_id() == old(self).spec_next_ui_texture_id(),
            final(self).spec_next_sampler_id() == old(self).spec_next_sampler_id(),
    {
        let new_id = self.material_render_pipeline_idgenerator.get_next_id();
        MaterialRenderPipelineHandle { inner: Arc::new(new_id) }
    }

    /// The next texture handle.
    pub fn next_texture(&mut self) -> (r: TextureHandle)
        requires
            old(self).spec_usable(),
        ensures
            r.spec_id() == old(self).spec_next_texture_id(),
            final(self).spec_next_texture_id() == old(self).spec_next_texture_id() + 1,
            final(self).spec_next_virtual_texture_id() == old(self).spec_next_virtual_texture_id(),
            final(self).spec_next_buffer_id() == old(self).spec_next_buffer_id(),
            final(self).spec_next_ui_texture_id() == old(self).spec_next_ui_texture_id(),
            final(self).spec_next_sampler_id() == old(self).spec_next_sampler_id(),
            final(self).spec_next_material_render_pipeline_id() == old(
                self,
            ).spec_next_material_render_pipeline_id(),
    {
        let new_id = self.texture_idgenerator.get_next_id();
        TextureHandle { inner: Arc::new(new_id) }
    }

    /// The next virtual texture handle; virtual textures count apart
    /// from ordinary textures.
    pub fn next_virtual_texture(&mut self) -> (r: TextureHandle)
        requires
            old(self).spec_usable(),
        ensures
            r.spec_id() == old(self).spec_next_virtual_texture_id(),
            final(self).spec_next_virtual_texture_id() == old(self).spec_next_virtual_texture_id()
                + 1,
            final(self).spec_next_texture_id() == old(self).spec_next_texture_id(),
            final(self).spec_next_buffer_id() == old(self).spec_next_buffer_id(),
            final(self).spec_next_ui_texture_id() == old(self).spec_next_ui_texture_id(),
            final(self).spec_next_sampler_id() == old(self).spec_next_sampler_id(),
            final(self).spec_next_material_render_pipeline_id() == old(
                self,
            ).spec_next_material_render_pipeline_id(),
    {
        let new_id = self.virtual_texture_idgenerator.get_next_id();
        TextureHandle { inner: Arc::new(new_id) }
    }

    /// The next GUI texture handle.
    pub fn next_ui_texture(&mut self) -> (r: EGUITextureHandle)
        requires
            old(self).spec_usable(),
        ensures
            r.spec_id() == old(self).spec_next_ui_texture_id(),
            final(self).spec_next_ui_texture_id() == old(self).spec_next_ui_texture_id() + 1,
            final(self).spec_next_texture_id() == old(self).spec_next_texture_id(),
            final(self).spec_next_virtual_texture_id() == old(self).spec_next_virtual_texture_id(),
            final(self).spec_next_buffer_id() == old(self).spec_next_buffer_id(),
            final(self).spec_next_sampler_id() == old(self).spec_next_sampler_id(),
            final(self).spec_next_material_render_pipeline_id() == old(
                self,
            ).spec_next_material_render_pipeline_id(),
    {
        let new_id = self.gui_texture_idgenerator.get_next_id();
        EGUITextureHandle { inner: Arc::new(new_id) }
    }

    /// The next buffer handle.
    pub fn next_buffer(&mut self) -> (r: BufferHandle)
        requires
            old(self).spec_usable(),
        ensures
            r.spec_id() == old(self).spec_next_buffer_id(),
            final(self).spec_next_buffer_id() == old(self).spec_next_buffer_id() + 1,
            final(self).spec_next_texture_id() == old(self).spec_next_texture_id(),
            final(self).spec_next_virtual_texture_id() == old(self).spec_next_virtual_texture_id(),
            final(self).spec_next_ui_texture_id() == old(self).spec_next_ui_texture_id(),
            final(self).spec_next_sampler_id() == old(self).spec_next_sampler_id(),
            final(self).spec_next_material_render_pipeline_id() == old(
                self,
            ).spec_next_material_render_pipeline_id(),
    {
        let new_id = self.buffer_idgenerator.get_next_id();
        BufferHandle { inner: Arc::new(new_id) }
    }

    /// The next sampler handle.
    pub fn next_sampler(&mut self) -> (r: SamplerHandle)
        requires
            old(self).spec_usable(),
        ensures
            r.spec_id() == old(self).spec_next_sampler_id(),
            final(self).spec_next_sampler_id() == old(self).spec_next_sampler_id() + 1,
            final(self).spec_next_texture_id() == old(self).spec_next_texture_id(),
            final(self).spec_next_virtual_texture_id() == old(self).spec_next_virtual_texture_id(),
            final(self).spec_next_buffer_id() == old(self).spec_next_buffer_id(),
            final(self).spec_next_ui_texture_id() == old(self).spec_next_ui_texture_id(),
            final(self).spec_next_material_render_pipeline_id() == old(
                self,
            ).spec_next_material_render_pipeline_id(),
    {
        let new_id = self.sampler_idgenerator.get_next_id();
        SamplerHandle { inner: Arc::new(new_id) }
    }
}

} // verus!
