use vstd::prelude::*;
use crate::region::Region;

verus! {

/// A drawing request, in coordinates local to the writer's region.
#[derive(Debug, PartialEq, Eq)]
pub enum DrawCommand {
    DrawChar { x: u32, y: u32, ch: u8, color: u32 },
    DrawString { x: u32, y: u32, text: String, color: u32 },
    FillRect { x: u32, y: u32, width: u32, height: u32, color: u32 },
    Clear { color: u32 },
}

/// A task's queue of drawing requests for its screen region.
pub struct WriterBuffer {
    commands: Vec<DrawCommand>,
    dirty: bool,
    region: Region,
    owner_task_id: Option<u64>,
    vis_buffer_index: Option<usize>,
}

impl WriterBuffer {
    pub closed spec fn spec_commands(&self) -> Seq<DrawCommand> {
        self.commands@
    }

    pub closed spec fn spec_dirty(&self) -> bool {
        self.dirty
    }

    pub closed spec fn spec_region(&self) -> Region {
        self.region
    }

    pub closed spec fn spec_owner(&self) -> Option<u64> {
        self.owner_task_id
    }

    pub closed spec fn spec_vis_index(&self) -> Option<usize> {
        self.vis_buffer_index
    }

    /// An empty, clean buffer for `region`.
    pub fn new(region: Region) -> (r: WriterBuffer)
        ensures
            r.spec_commands() == Seq::<DrawCommand>::empty(),
            !r.spec_dirty(),
            r.spec_region() == region,
            r.spec_owner() is None,
            r.spec_vis_index() is None,
    {
        WriterBuffer {
            commands: Vec::with_capacity(64),
            dirty: false,
            region,
            owner_task_id: None,
            vis_buffer_index: None,
        }
    }

    pub fn set_owner_task_id(&mut self, task_id: u64)
        ensures
            final(self).spec_owner() == Some(task_id),
            final(self).spec_commands() == old(self).spec_commands(),
            final(self).spec_dirty() == old(self).spec_dirty(),
            final(self).spec_region() == old(self).spec_region(),
            final(self).spec_vis_index() == old(self).spec_vis_index(),
    {
        self.owner_task_id = Some(task_id);
    }

    pub fn owner_task_id(&self) -> (r: Option<u64>)
        ensures
            r == self.spec_owner(),
    {
        self.owner_task_id
    }

    pub fn set_vis_buffer_index(&mut self, index: usize)
        ensures
            final(self).spec_vis_index() == Some(index),
            final(self).spec_commands() == old(self).spec_commands(),
            final(self).spec_dirty() == old(self).spec_dirty(),
            final(self).spec_region() == old(self).spec_region(),
            final(self).spec_owner() == old(self).spec_owner(),
    {
        self.vis_buffer_index = Some(index);
    }

    pub fn vis_buffer_index(&self) -> (r: Option<usize>)
        ensures
            r == self.spec_vis_index(),
    {
        self.vis_buffer_index
    }

    /// Appends `cmd` and marks the buffer dirty.
    pub fn push_command(&mut self, cmd: DrawCommand)
        ensures
            final(self).spec_commands() == old(self).spec_commands().push(cmd),
            final(self).spec_dirty(),
            final(self).spec_region() == old(self).spec_region(),
            final(self).spec_owner() == old(self).spec_owner(),
            final(self).spec_vis_index() == old(self).spec_vis_index(),
    {
        self.commands.push(cmd);
        self.dirty = true;
    }

    /// Appends `commands` in order; the buffer becomes dirty if any was added.
    pub fn extend_commands(&mut self, commands: Vec<DrawCommand>)
        ensures
            final(self).spec_commands() == old(self).spec_commands() + commands@,
            final(self).spec_dirty() == (old(self).spec_dirty() || commands@.len() > 0),
            final(self).spec_region() == old(self).spec_region(),
            final(self).spec_owner() == old(self).spec_owner(),
            final(self).spec_vis_index() == old(self).spec_vis_index(),
    {
        let old_len = self.commands.len();
        let mut commands = commands;
        self.commands.append(&mut commands);
        if self.commands.len() > old_len {
            self.dirty = true;
        }
    }

    /// The queued commands, oldest first.
    pub fn commands(&self) -> (r: &[DrawCommand])
        ensures
            r@ == self.spec_commands(),
    {
        self.commands.as_slice()
    }

    /// Drops every command and marks the buffer clean.
    pub fn clear_commands(&mut self)
        ensures
            final(self).spec_commands() == Seq::<DrawCommand>::empty(),
            !final(self).spec_dirty(),
            final(self).spec_region() == old(self).spec_region(),
            final(self).spec_owner() == old(self).spec_owner(),
            final(self).spec_vis_index() == old(self).spec_vis_index(),
    {
        self.commands.clear();
        self.dirty = false;
    }

    pub fn is_dirty(&self) -> (r: bool)
        ensures
            r == self.spec_dirty(),
    {
        self.dirty
    }

    pub fn region(&self) -> (r: Region)
        ensures
            r == self.spec_region(),
    {
        self.region
    }
}

} // verus!
